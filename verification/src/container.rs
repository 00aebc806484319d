//! Bytecode containers: code, a constant pool and an interface of callable entries, each
//! with a declared state access manifest; their canonical serialization, identifier and the
//! deploy-time verifier.
use vstd::prelude::*;
use std::collections::BTreeSet;
use crate::bytes::{be32, be64, word32, lemma_be32_word32, lemma_word32_be32, push_be32, push_be64, read_be32};
use crate::crypto::eq_bytes;
use crate::isa::{decode, decode_at, law_encode_decode, Instr};
use crate::primitives::{sha3_256, sha3_256_of};
use vstd::string::StringSliceAdditionalSpecFns;

verus! {

broadcast use vstd::std_specs::btree::group_btree_axioms;

/// Bytes of an entry selector.
pub const SELECTOR_BYTES: usize = 4;

/// Signature of the entry a contract runs when it is deployed.
pub const GENESIS_SIGNATURE: &'static str = "@genesis()";

/// Most code bytes a container may hold.
pub const MAX_CODE_BYTES: usize = 65536;

/// Most constants a container may hold.
pub const MAX_CONSTS: usize = 4096;

/// Most entries a container may declare.
pub const MAX_ENTRIES: usize = 256;

/// Leading bytes of the canonical serialization (`QVM1`).
pub const FORMAT_TAG: [u8; 4] = [0x51, 0x56, 0x4d, 0x31];

/// Why the deploy-time verifier rejects a container.
#[derive(Debug, Clone, PartialEq, Eq)]
pub enum VerifyError {
    CodeTooLarge,
    ConstsTooLarge,
    EntriesTooLarge,
    UndecodableCode(usize),
    ConstIndexOutOfRange(u16),
    MisalignedTarget(u32),
    EntryOffsetMisaligned([u8; SELECTOR_BYTES]),
    DuplicateSelector([u8; SELECTOR_BYTES]),
}

/// The storage an entry declares it reads and writes: scalar slots, and the bases of keyed
/// maps whose whole keyspace it may read or write.
#[derive(Debug, Clone, PartialEq, Eq)]
pub struct StateAccess {
    pub reads: Vec<u64>,
    pub writes: Vec<u64>,
    pub keyed_reads: Vec<u64>,
    pub keyed_writes: Vec<u64>,
}

impl Default for StateAccess {
    fn default() -> (r: StateAccess)
        ensures
            r.reads@.len() == 0,
            r.writes@.len() == 0,
            r.keyed_reads@.len() == 0,
            r.keyed_writes@.len() == 0,
    {
        StateAccess { reads: Vec::new(), writes: Vec::new(), keyed_reads: Vec::new(), keyed_writes: Vec::new() }
    }
}

/// A callable entry: its selector, the code offset it starts at, and its access manifest.
#[derive(Debug, Clone, PartialEq, Eq)]
pub struct Entry {
    pub selector: [u8; SELECTOR_BYTES],
    pub offset: u32,
    pub access: StateAccess,
}

/// A deployed contract: code, constant pool and entries.
#[derive(Debug, Clone, PartialEq, Eq)]
pub struct Container {
    pub code: Vec<u8>,
    pub consts: Vec<u64>,
    pub entries: Vec<Entry>,
}

impl Default for Container {
    fn default() -> (r: Container)
        ensures
            r@ == (ContainerView { code: Seq::empty(), consts: Seq::empty(), entries: Seq::empty() }),
    {
        let r = Container { code: Vec::new(), consts: Vec::new(), entries: Vec::new() };
        assert(entries_view(r.entries@) =~= Seq::<EntryView>::empty());
        r
    }
}

/// An entry by value.
pub struct EntryView {
    pub selector: Seq<u8>,
    pub offset: u32,
    pub reads: Seq<u64>,
    pub writes: Seq<u64>,
    pub keyed_reads: Seq<u64>,
    pub keyed_writes: Seq<u64>,
}

/// A container by value.
pub struct ContainerView {
    pub code: Seq<u8>,
    pub consts: Seq<u64>,
    pub entries: Seq<EntryView>,
}

impl View for Entry {
    type V = EntryView;

    open spec fn view(&self) -> EntryView {
        EntryView {
            selector: self.selector@,
            offset: self.offset,
            reads: self.access.reads@,
            writes: self.access.writes@,
            keyed_reads: self.access.keyed_reads@,
            keyed_writes: self.access.keyed_writes@,
        }
    }
}

/// The views of a list of entries.
pub open spec fn entries_view(v: Seq<Entry>) -> Seq<EntryView> {
    v.map_values(|e: Entry| e@)
}

impl View for Container {
    type V = ContainerView;

    open spec fn view(&self) -> ContainerView {
        ContainerView { code: self.code@, consts: self.consts@, entries: entries_view(self.entries@) }
    }
}

// ---------------------------------------------------------------------------------------
// Canonical serialization

/// A length, as four big-endian bytes of its low 32 bits.
pub open spec fn len_bytes(n: nat) -> Seq<u8> {
    be32(n as u32)
}

/// The words of `s`, eight big-endian bytes each.
pub open spec fn words_bytes(s: Seq<u64>) -> Seq<u8>
    decreases s.len(),
{
    if s.len() == 0 {
        Seq::empty()
    } else {
        be64(s[0]) + words_bytes(s.drop_first())
    }
}

/// A list of slots: its length, then its words.
pub open spec fn slots_bytes(s: Seq<u64>) -> Seq<u8> {
    len_bytes(s.len()) + words_bytes(s)
}

/// An entry: selector, big-endian offset, then its read, write, keyed read and keyed write
/// lists.
pub open spec fn entry_bytes(e: EntryView) -> Seq<u8> {
    e.selector + be32(e.offset) + slots_bytes(e.reads) + slots_bytes(e.writes) + slots_bytes(
        e.keyed_reads,
    ) + slots_bytes(e.keyed_writes)
}

/// The entries, one after another.
pub open spec fn entries_bytes(s: Seq<EntryView>) -> Seq<u8>
    decreases s.len(),
{
    if s.len() == 0 {
        Seq::empty()
    } else {
        entry_bytes(s[0]) + entries_bytes(s.drop_first())
    }
}

/// The canonical serialization: the format tag, then the length-prefixed code, constants and
/// entries.
pub open spec fn canonical(c: ContainerView) -> Seq<u8> {
    FORMAT_TAG@ + len_bytes(c.code.len()) + c.code + len_bytes(c.consts.len()) + words_bytes(c.consts)
        + len_bytes(c.entries.len()) + entries_bytes(c.entries)
}

fn put_len(out: &mut Vec<u8>, len: usize)
    ensures
        final(out)@ == old(out)@ + len_bytes(len as nat),
{
    push_be32(out, len as u32);
}

proof fn lemma_words_bytes_push(s: Seq<u64>, w: u64)
    ensures
        words_bytes(s.push(w)) =~= words_bytes(s) + be64(w),
    decreases s.len(),
{
    let t = s.push(w);
    assert(t.len() > 0);
    assert(words_bytes(t) == be64(t[0]) + words_bytes(t.drop_first()));
    if s.len() > 0 {
        lemma_words_bytes_push(s.drop_first(), w);
        assert(t.drop_first() =~= s.drop_first().push(w));
        assert(words_bytes(s) == be64(s[0]) + words_bytes(s.drop_first()));
    } else {
        assert(t.drop_first() =~= Seq::<u64>::empty());
        assert(words_bytes(t.drop_first()) =~= Seq::<u8>::empty());
        assert(words_bytes(s) =~= Seq::<u8>::empty());
    }
}

proof fn lemma_entries_bytes_push(s: Seq<EntryView>, e: EntryView)
    ensures
        entries_bytes(s.push(e)) =~= entries_bytes(s) + entry_bytes(e),
    decreases s.len(),
{
    let t = s.push(e);
    assert(t.len() > 0);
    assert(entries_bytes(t) == entry_bytes(t[0]) + entries_bytes(t.drop_first()));
    if s.len() > 0 {
        lemma_entries_bytes_push(s.drop_first(), e);
        assert(t.drop_first() =~= s.drop_first().push(e));
        assert(entries_bytes(s) == entry_bytes(s[0]) + entries_bytes(s.drop_first()));
    } else {
        assert(t.drop_first() =~= Seq::<EntryView>::empty());
        assert(entries_bytes(t.drop_first()) =~= Seq::<u8>::empty());
        assert(entries_bytes(s) =~= Seq::<u8>::empty());
    }
}

fn put_words(out: &mut Vec<u8>, words: &[u64])
    ensures
        final(out)@ == old(out)@ + words_bytes(words@),
{
    let mut j: usize = 0;
    while j < words.len()
        invariant
            j <= words@.len(),
            out@ == old(out)@ + words_bytes(words@.subrange(0, j as int)),
        decreases words@.len() - j,
    {
        proof {
            lemma_words_bytes_push(words@.subrange(0, j as int), words@[j as int]);
            assert(words@.subrange(0, j + 1) =~= words@.subrange(0, j as int).push(words@[j as int]));
        }
        push_be64(out, words[j]);
        j = j + 1;
    }
    assert(words@.subrange(0, words@.len() as int) =~= words@);
}

fn put_slots(out: &mut Vec<u8>, slots: &[u64])
    ensures
        final(out)@ == old(out)@ + slots_bytes(slots@),
{
    put_len(out, slots.len());
    put_words(out, slots);
}

fn put_entry(out: &mut Vec<u8>, e: &Entry)
    ensures
        final(out)@ == old(out)@ + entry_bytes(e@),
{
    crate::crypto::append(out, e.selector.as_slice());
    push_be32(out, e.offset);
    put_slots(out, e.access.reads.as_slice());
    put_slots(out, e.access.writes.as_slice());
    put_slots(out, e.access.keyed_reads.as_slice());
    put_slots(out, e.access.keyed_writes.as_slice());
    assert(final(out)@ =~= old(out)@ + entry_bytes(e@));
}

impl Container {
    /// A container of the given code, constants and entries.
    pub fn new(code: Vec<u8>, consts: Vec<u64>, entries: Vec<Entry>) -> (r: Self)
        ensures
            r.code == code,
            r.consts == consts,
            r.entries == entries,
    {
        Container { code, consts, entries }
    }

    /// The canonical serialization the identifier is taken over.
    pub fn canonical_bytes(&self) -> (r: Vec<u8>)
        ensures
            r@ == canonical(self@),
    {
        let mut out: Vec<u8> = Vec::new();
        crate::crypto::append(&mut out, FORMAT_TAG.as_slice());
        put_len(&mut out, self.code.len());
        crate::crypto::append(&mut out, self.code.as_slice());
        put_len(&mut out, self.consts.len());
        put_words(&mut out, self.consts.as_slice());
        put_len(&mut out, self.entries.len());
        let ghost head = out@;
        let mut k: usize = 0;
        while k < self.entries.len()
            invariant
                k <= self.entries@.len(),
                out@ == head + entries_bytes(entries_view(self.entries@).subrange(0, k as int)),
            decreases self.entries@.len() - k,
        {
            proof {
                let ev = entries_view(self.entries@);
                lemma_entries_bytes_push(ev.subrange(0, k as int), ev[k as int]);
                assert(ev.subrange(0, k + 1) =~= ev.subrange(0, k as int).push(ev[k as int]));
            }
            put_entry(&mut out, &self.entries[k]);
            k = k + 1;
        }
        assert(entries_view(self.entries@).subrange(0, self.entries@.len() as int) =~= entries_view(
            self.entries@,
        ));
        assert(out@ =~= canonical(self@));
        out
    }

    /// The SHA3-256 digest of the canonical serialization.
    pub fn identifier(&self) -> (r: [u8; 32])
        ensures
            r@ == sha3_256_of(canonical(self@))@,
    {
        let bytes = self.canonical_bytes();
        sha3_256(bytes.as_slice())
    }

    /// The code offset of the first entry with `selector`, `None` when no entry has it.
    pub fn entry_offset(&self, selector: &[u8; SELECTOR_BYTES]) -> (r: Option<u32>)
        ensures
            r == first_offset(self@.entries, selector@),
    {
        let sl = self.entries.as_slice();
        assert(sl@ == self.entries@);
        match find_entry(sl, selector) {
            Some(k) => {
                assert(entries_view(self.entries@)[k as int] == self.entries@[k as int]@);
                Some(self.entries[k].offset)
            },
            None => None,
        }
    }
}

/// Index of the first entry with `sel`, if any.
pub open spec fn first_entry(entries: Seq<EntryView>, sel: Seq<u8>) -> Option<int>
    decreases entries.len(),
{
    if entries.len() == 0 {
        None
    } else if entries[0].selector == sel {
        Some(0)
    } else {
        match first_entry(entries.drop_first(), sel) {
            Some(k) => Some(k + 1),
            None => None,
        }
    }
}

/// The offset of the first entry with `sel`, if any.
pub open spec fn first_offset(entries: Seq<EntryView>, sel: Seq<u8>) -> Option<u32> {
    match first_entry(entries, sel) {
        Some(k) => Some(entries[k].offset),
        None => None,
    }
}

proof fn lemma_first_entry(entries: Seq<EntryView>, sel: Seq<u8>, k: int)
    requires
        0 <= k <= entries.len(),
        forall|j: int| 0 <= j < k ==> entries[j].selector != sel,
    ensures
        k < entries.len() && entries[k].selector == sel ==> first_entry(entries, sel) == Some(k),
        k == entries.len() ==> first_entry(entries, sel) is None,
    decreases k,
{
    if k > 0 {
        lemma_first_entry(entries.drop_first(), sel, k - 1);
    }
}

/// The index of the first entry with `selector`.
pub fn find_entry(entries: &[Entry], selector: &[u8; SELECTOR_BYTES]) -> (r: Option<usize>)
    ensures
        match r {
            Some(k) => first_entry(entries_view(entries@), selector@) == Some(k as int) && k
                < entries@.len(),
            None => first_entry(entries_view(entries@), selector@) is None,
        },
{
    let ghost ev = entries_view(entries@);
    let mut k: usize = 0;
    while k < entries.len()
        invariant
            k <= entries@.len(),
            ev == entries_view(entries@),
            forall|j: int| 0 <= j < k ==> ev[j].selector != selector@,
        decreases entries@.len() - k,
    {
        if eq_bytes(entries[k].selector.as_slice(), selector.as_slice()) {
            proof {
                lemma_first_entry(ev, selector@, k as int);
            }
            return Some(k);
        }
        k = k + 1;
    }
    proof {
        lemma_first_entry(ev, selector@, k as int);
    }
    None
}

/// The selector of an entry signature: the leading bytes of the SHA3-256 digest of its UTF-8
/// bytes.
pub fn selector(signature: &str) -> (r: [u8; SELECTOR_BYTES])
    ensures
        r@ == sha3_256_of(signature.spec_bytes())@.subrange(0, 4),
{
    let digest = sha3_256(signature.as_bytes());
    let r = [digest[0], digest[1], digest[2], digest[3]];
    assert(r@ =~= digest@.subrange(0, 4));
    r
}

// ---------------------------------------------------------------------------------------
// Deploy-time verification

/// The jump and call targets an instruction names.
pub open spec fn targets_of(i: Instr) -> Seq<u32> {
    match i {
        Instr::Jmp { target } => seq![target],
        Instr::Call { target } => seq![target],
        Instr::Jz { target, .. } => seq![target],
        Instr::Jnz { target, .. } => seq![target],
        _ => Seq::empty(),
    }
}

pub proof fn lemma_decode_len_positive(code: Seq<u8>, pc: int)
    ensures
        decode_at(code, pc) matches Ok((_, n)) ==> n >= 1,
{
}

/// Walks the code from `pc` instruction by instruction: the offsets where instructions start
/// and the targets they name, or the first fault met (bytes that do not decode, or a
/// constant index past the pool).
pub open spec fn scan(code: Seq<u8>, nconsts: nat, pc: nat) -> Result<(Set<u32>, Seq<u32>), VerifyError>
    decreases code.len() - pc,
{
    if pc >= code.len() {
        Ok((Set::empty(), Seq::empty()))
    } else {
        match decode_at(code, pc as int) {
            Err(_) => Err(VerifyError::UndecodableCode(pc as usize)),
            Ok((i, n)) => {
                proof {
                    lemma_decode_len_positive(code, pc as int);
                }
                match i {
                    Instr::Ldc { idx, .. } if idx >= nconsts => Err(
                        VerifyError::ConstIndexOutOfRange(idx),
                    ),
                    _ => match scan(code, nconsts, pc + n) {
                        Err(e) => Err(e),
                        Ok((st, tg)) => Ok((st.insert(pc as u32), targets_of(i) + tg)),
                    },
                }
            },
        }
    }
}

/// The first target that is not an instruction start, if any.
pub open spec fn first_misaligned(targets: Seq<u32>, starts: Set<u32>) -> Option<u32>
    decreases targets.len(),
{
    if targets.len() == 0 {
        None
    } else if !starts.contains(targets[0]) {
        Some(targets[0])
    } else {
        first_misaligned(targets.drop_first(), starts)
    }
}

/// The first fault among the entries from index `k` on: a selector an earlier entry already
/// has, or an offset that is not an instruction start.
pub open spec fn entry_fault(entries: Seq<Entry>, k: nat, starts: Set<u32>) -> Option<VerifyError>
    decreases entries.len() - k,
{
    if k >= entries.len() {
        None
    } else {
        let e = entries[k as int];
        if exists|j: int| 0 <= j < k && entries[j].selector == e.selector {
            Some(VerifyError::DuplicateSelector(e.selector))
        } else if !starts.contains(e.offset) {
            Some(VerifyError::EntryOffsetMisaligned(e.selector))
        } else {
            entry_fault(entries, k + 1, starts)
        }
    }
}

/// What the deploy-time verifier decides: size limits first, then the code walk, then every
/// target, then every entry, each reporting its first fault.
pub open spec fn verify_result(c: Container) -> Result<(), VerifyError> {
    if c.code@.len() > MAX_CODE_BYTES {
        Err(VerifyError::CodeTooLarge)
    } else if c.consts@.len() > MAX_CONSTS {
        Err(VerifyError::ConstsTooLarge)
    } else if c.entries@.len() > MAX_ENTRIES {
        Err(VerifyError::EntriesTooLarge)
    } else {
        match scan(c.code@, c.consts@.len(), 0) {
            Err(e) => Err(e),
            Ok((starts, targets)) => match first_misaligned(targets, starts) {
                Some(t) => Err(VerifyError::MisalignedTarget(t)),
                None => match entry_fault(c.entries@, 0, starts) {
                    Some(e) => Err(e),
                    None => Ok(()),
                },
            },
        }
    }
}

/// `r` with `starts` and `targets` gathered ahead of it.
pub open spec fn gathered(
    starts: Set<u32>,
    targets: Seq<u32>,
    r: Result<(Set<u32>, Seq<u32>), VerifyError>,
) -> Result<(Set<u32>, Seq<u32>), VerifyError> {
    match r {
        Err(e) => Err(e),
        Ok((st, tg)) => Ok((starts.union(st), targets + tg)),
    }
}

proof fn lemma_gathered_empty(r: Result<(Set<u32>, Seq<u32>), VerifyError>)
    ensures
        gathered(Set::empty(), Seq::empty(), r) == r,
{
    if let Ok((st, tg)) = r {
        assert(Set::<u32>::empty().union(st) =~= st);
        assert(Seq::<u32>::empty() + tg =~= tg);
    }
}

proof fn lemma_first_misaligned_skip(targets: Seq<u32>, starts: Set<u32>, k: int)
    requires
        0 <= k <= targets.len(),
        forall|j: int| 0 <= j < k ==> starts.contains(targets[j]),
    ensures
        first_misaligned(targets, starts) == first_misaligned(targets.subrange(k, targets.len() as int), starts),
    decreases k,
{
    if k > 0 {
        lemma_first_misaligned_skip(targets.drop_first(), starts, k - 1);
        assert(targets.drop_first().subrange(k - 1, targets.len() - 1) =~= targets.subrange(k, targets.len() as int));
    } else {
        assert(targets.subrange(0, targets.len() as int) =~= targets);
    }
}

/// The word read from a selector's four bytes.
pub open spec fn selector_word(sel: [u8; SELECTOR_BYTES]) -> u32 {
    word32(sel@)
}

proof fn lemma_selector_word_injective(a: [u8; SELECTOR_BYTES], b: [u8; SELECTOR_BYTES])
    ensures
        selector_word(a) == selector_word(b) <==> a == b,
{
    lemma_be32_word32(a@);
    lemma_be32_word32(b@);
    if selector_word(a) == selector_word(b) {
        assert(a@ =~= b@);
        assert forall|i: int| 0 <= i < SELECTOR_BYTES implies a[i] == b[i] by {
            assert(a@[i] == b@[i]);
        }
        assert(a =~= b);
    }
}

impl Container {
    /// The deploy-time verifier: a container is accepted only when it is within the size
    /// limits, its code decodes end to end, every constant index lies in the pool, every jump
    /// and call target and every entry offset is an instruction start, and no two entries
    /// share a selector.
    pub fn verify(&self) -> (r: Result<(), VerifyError>)
        ensures
            r == verify_result(*self),
    {
        if self.code.len() > MAX_CODE_BYTES {
            return Err(VerifyError::CodeTooLarge);
        }
        if self.consts.len() > MAX_CONSTS {
            return Err(VerifyError::ConstsTooLarge);
        }
        if self.entries.len() > MAX_ENTRIES {
            return Err(VerifyError::EntriesTooLarge);
        }
        let code = self.code.as_slice();
        let nconsts = self.consts.len();
        let mut starts: BTreeSet<u32> = BTreeSet::new();
        let mut targets: Vec<u32> = Vec::new();
        proof {
            lemma_gathered_empty(scan(code@, nconsts as nat, 0));
        }
        let mut pc: usize = 0;
        while pc < code.len()
            invariant
                code@ == self.code@,
                code@.len() <= MAX_CODE_BYTES,
                self.consts@.len() <= MAX_CONSTS,
                self.entries@.len() <= MAX_ENTRIES,
                nconsts == self.consts@.len(),
                pc <= code@.len(),
                scan(code@, nconsts as nat, 0) == gathered(starts@, targets@, scan(code@, nconsts as nat, pc as nat)),
            decreases code@.len() - pc,
        {
            let (instr, len) = match decode(code, pc) {
                Ok(d) => d,
                Err(_) => {
                    assert(scan(code@, nconsts as nat, pc as nat) == Err::<(Set<u32>, Seq<u32>), VerifyError>(VerifyError::UndecodableCode(pc)));
                    return Err(VerifyError::UndecodableCode(pc));
                },
            };
            proof {
                law_encode_decode(code@, pc as int);
            }
            let ghost before_starts = starts@;
            let ghost before_targets = targets@;
            match instr {
                Instr::Jmp { target } | Instr::Call { target } => targets.push(target),
                Instr::Jz { target, .. } | Instr::Jnz { target, .. } => targets.push(target),
                Instr::Ldc { idx, .. } => {
                    if idx as usize >= nconsts {
                        assert(scan(code@, nconsts as nat, pc as nat) == Err::<(Set<u32>, Seq<u32>), VerifyError>(VerifyError::ConstIndexOutOfRange(idx)));
                        return Err(VerifyError::ConstIndexOutOfRange(idx));
                    }
                },
                _ => {},
            }
            starts.insert(pc as u32);
            proof {
                assert(targets@ =~= before_targets + targets_of(instr));
                let rest = scan(code@, nconsts as nat, (pc + len) as nat);
                match rest {
                    Err(e) => {},
                    Ok((st, tg)) => {
                        assert(before_starts.union(st.insert(pc as u32)) =~= starts@.union(st));
                        assert(before_targets + (targets_of(instr) + tg) =~= targets@ + tg);
                    },
                }
            }
            pc = pc + len;
        }
        let ghost st = starts@;
        let mut k: usize = 0;
        while k < targets.len()
            invariant
                starts@ == st,
                self.code@.len() <= MAX_CODE_BYTES,
                self.consts@.len() <= MAX_CONSTS,
                self.entries@.len() <= MAX_ENTRIES,
                scan(self.code@, self.consts@.len(), 0) == gathered(st, targets@, Ok((Set::empty(), Seq::empty()))),
                k <= targets@.len(),
                forall|j: int| 0 <= j < k ==> st.contains(targets@[j]),
            decreases targets@.len() - k,
        {
            let t = targets[k];
            if !starts.contains(&t) {
                proof {
                    lemma_first_misaligned_skip(targets@, st, k as int);
                    let sub = targets@.subrange(k as int, targets@.len() as int);
                    assert(sub[0] == t);
                    assert(first_misaligned(sub, st) == Some(t));
                    assert(st.union(Set::empty()) =~= st);
                    assert(targets@ + Seq::<u32>::empty() =~= targets@);
                }
                return Err(VerifyError::MisalignedTarget(t));
            }
            k = k + 1;
        }
        proof {
            lemma_first_misaligned_skip(targets@, st, k as int);
            assert(scan(code@, nconsts as nat, 0) == Ok::<(Set<u32>, Seq<u32>), VerifyError>((st, targets@))) by {
                assert(st.union(Set::empty()) =~= st);
                assert(targets@ + Seq::<u32>::empty() =~= targets@);
            }
        }
        let mut seen: BTreeSet<u32> = BTreeSet::new();
        let mut e: usize = 0;
        while e < self.entries.len()
            invariant
                starts@ == st,
                self.code@.len() <= MAX_CODE_BYTES,
                self.consts@.len() <= MAX_CONSTS,
                self.entries@.len() <= MAX_ENTRIES,
                scan(self.code@, self.consts@.len(), 0) == Ok::<(Set<u32>, Seq<u32>), VerifyError>((st, targets@)),
                first_misaligned(targets@, st) is None,
                e <= self.entries@.len(),
                forall|w: u32| seen@.contains(w) <==> exists|j: int| 0 <= j < e && selector_word(self.entries@[j].selector) == w,
                entry_fault(self.entries@, 0, st) == entry_fault(self.entries@, e as nat, st),
            decreases self.entries@.len() - e,
        {
            let entry = &self.entries[e];
            let w = read_be32(entry.selector.as_slice(), 0);
            proof {
                assert(entry.selector@.subrange(0, 4) =~= entry.selector@);
            }
            let fresh = seen.insert(w);
            if !fresh {
                proof {
                    let j = choose|j: int| 0 <= j < e && selector_word(self.entries@[j].selector) == w;
                    lemma_selector_word_injective(self.entries@[j].selector, entry.selector);
                }
                return Err(VerifyError::DuplicateSelector(entry.selector));
            }
            proof {
                assert forall|j: int| 0 <= j < e implies self.entries@[j].selector != entry.selector by {
                    lemma_selector_word_injective(self.entries@[j].selector, entry.selector);
                }
            }
            if !starts.contains(&entry.offset) {
                return Err(VerifyError::EntryOffsetMisaligned(entry.selector));
            }
            e = e + 1;
            proof {
                assert forall|x: u32| seen@.contains(x) <==> exists|j: int| 0 <= j < e && selector_word(self.entries@[j].selector) == x by {
                    if x == w {
                        assert(selector_word(self.entries@[e - 1].selector) == x);
                    }
                }
            }
        }
        Ok(())
    }
}

// ---------------------------------------------------------------------------------------
// The canonical serialization is one-to-one

/// Every list of an entry fits its four-byte length prefix, and its selector has four bytes.
pub open spec fn entry_encodable(e: EntryView) -> bool {
    &&& e.selector.len() == SELECTOR_BYTES
    &&& e.reads.len() <= u32::MAX
    &&& e.writes.len() <= u32::MAX
    &&& e.keyed_reads.len() <= u32::MAX
    &&& e.keyed_writes.len() <= u32::MAX
}

/// Every length in the container fits its four-byte length prefix.
pub open spec fn encodable(c: ContainerView) -> bool {
    &&& c.code.len() <= u32::MAX
    &&& c.consts.len() <= u32::MAX
    &&& c.entries.len() <= u32::MAX
    &&& forall|k: int| 0 <= k < c.entries.len() ==> entry_encodable(#[trigger] c.entries[k])
}

proof fn lemma_assoc<A>(a: Seq<A>, b: Seq<A>, c: Seq<A>)
    ensures
        (a + b) + c == a + (b + c),
{
    assert((a + b) + c =~= a + (b + c));
}

proof fn lemma_split<A>(a1: Seq<A>, b1: Seq<A>, a2: Seq<A>, b2: Seq<A>)
    requires
        a1.len() == a2.len(),
        a1 + b1 == a2 + b2,
    ensures
        a1 == a2,
        b1 == b2,
{
    let n = a1.len() as int;
    assert(a1 =~= (a1 + b1).subrange(0, n));
    assert(a2 =~= (a2 + b2).subrange(0, n));
    assert(b1 =~= (a1 + b1).subrange(n, (a1 + b1).len() as int));
    assert(b2 =~= (a2 + b2).subrange(n, (a2 + b2).len() as int));
}

proof fn lemma_len_prefix(n1: nat, n2: nat, r1: Seq<u8>, r2: Seq<u8>)
    requires
        n1 <= u32::MAX,
        n2 <= u32::MAX,
        len_bytes(n1) + r1 == len_bytes(n2) + r2,
    ensures
        n1 == n2,
        r1 == r2,
{
    lemma_split(len_bytes(n1), r1, len_bytes(n2), r2);
    lemma_word32_be32(n1 as u32);
    lemma_word32_be32(n2 as u32);
}

proof fn lemma_words_prefix(s1: Seq<u64>, s2: Seq<u64>, r1: Seq<u8>, r2: Seq<u8>)
    requires
        s1.len() == s2.len(),
        words_bytes(s1) + r1 == words_bytes(s2) + r2,
    ensures
        s1 == s2,
        r1 == r2,
    decreases s1.len(),
{
    if s1.len() == 0 {
        assert(words_bytes(s1) + r1 =~= r1);
        assert(words_bytes(s2) + r2 =~= r2);
        assert(s1 =~= s2);
    } else {
        let t1 = words_bytes(s1.drop_first()) + r1;
        let t2 = words_bytes(s2.drop_first()) + r2;
        assert(words_bytes(s1) + r1 =~= be64(s1[0]) + t1);
        assert(words_bytes(s2) + r2 =~= be64(s2[0]) + t2);
        lemma_split(be64(s1[0]), t1, be64(s2[0]), t2);
        crate::bytes::lemma_be64_injective(s1[0], s2[0]);
        lemma_words_prefix(s1.drop_first(), s2.drop_first(), r1, r2);
        assert forall|i: int| 0 <= i < s1.len() implies s1[i] == s2[i] by {
            if i > 0 {
                assert(s1[i] == s1.drop_first()[i - 1]);
                assert(s2[i] == s2.drop_first()[i - 1]);
            }
        }
        assert(s1 =~= s2);
    }
}

proof fn lemma_slots_prefix(s1: Seq<u64>, s2: Seq<u64>, r1: Seq<u8>, r2: Seq<u8>)
    requires
        s1.len() <= u32::MAX,
        s2.len() <= u32::MAX,
        slots_bytes(s1) + r1 == slots_bytes(s2) + r2,
    ensures
        s1 == s2,
        r1 == r2,
{
    assert(slots_bytes(s1) + r1 =~= len_bytes(s1.len()) + (words_bytes(s1) + r1));
    assert(slots_bytes(s2) + r2 =~= len_bytes(s2.len()) + (words_bytes(s2) + r2));
    lemma_len_prefix(s1.len(), s2.len(), words_bytes(s1) + r1, words_bytes(s2) + r2);
    lemma_words_prefix(s1, s2, r1, r2);
}

proof fn lemma_entry_prefix(e1: EntryView, e2: EntryView, r1: Seq<u8>, r2: Seq<u8>)
    requires
        entry_encodable(e1),
        entry_encodable(e2),
        entry_bytes(e1) + r1 == entry_bytes(e2) + r2,
    ensures
        e1 == e2,
        r1 == r2,
{
    let kw1 = slots_bytes(e1.keyed_writes) + r1;
    let kw2 = slots_bytes(e2.keyed_writes) + r2;
    let kr1 = slots_bytes(e1.keyed_reads) + kw1;
    let kr2 = slots_bytes(e2.keyed_reads) + kw2;
    let w1 = slots_bytes(e1.writes) + kr1;
    let w2 = slots_bytes(e2.writes) + kr2;
    let d1 = slots_bytes(e1.reads) + w1;
    let d2 = slots_bytes(e2.reads) + w2;
    assert(entry_bytes(e1) + r1 =~= e1.selector + (be32(e1.offset) + d1));
    assert(entry_bytes(e2) + r2 =~= e2.selector + (be32(e2.offset) + d2));
    lemma_split(e1.selector, be32(e1.offset) + d1, e2.selector, be32(e2.offset) + d2);
    lemma_split(be32(e1.offset), d1, be32(e2.offset), d2);
    lemma_word32_be32(e1.offset);
    lemma_word32_be32(e2.offset);
    lemma_slots_prefix(e1.reads, e2.reads, w1, w2);
    lemma_slots_prefix(e1.writes, e2.writes, kr1, kr2);
    lemma_slots_prefix(e1.keyed_reads, e2.keyed_reads, kw1, kw2);
    lemma_slots_prefix(e1.keyed_writes, e2.keyed_writes, r1, r2);
}

proof fn lemma_entries_prefix(s1: Seq<EntryView>, s2: Seq<EntryView>, r1: Seq<u8>, r2: Seq<u8>)
    requires
        s1.len() == s2.len(),
        forall|k: int| 0 <= k < s1.len() ==> entry_encodable(#[trigger] s1[k]),
        forall|k: int| 0 <= k < s2.len() ==> entry_encodable(#[trigger] s2[k]),
        entries_bytes(s1) + r1 == entries_bytes(s2) + r2,
    ensures
        s1 == s2,
        r1 == r2,
    decreases s1.len(),
{
    if s1.len() == 0 {
        assert(entries_bytes(s1) + r1 =~= r1);
        assert(entries_bytes(s2) + r2 =~= r2);
        assert(s1 =~= s2);
    } else {
        let t1 = entries_bytes(s1.drop_first()) + r1;
        let t2 = entries_bytes(s2.drop_first()) + r2;
        assert(entries_bytes(s1) == entry_bytes(s1[0]) + entries_bytes(s1.drop_first()));
        assert(entries_bytes(s2) == entry_bytes(s2[0]) + entries_bytes(s2.drop_first()));
        lemma_assoc(entry_bytes(s1[0]), entries_bytes(s1.drop_first()), r1);
        lemma_assoc(entry_bytes(s2[0]), entries_bytes(s2.drop_first()), r2);
        assert(entry_encodable(s1[0]) && entry_encodable(s2[0]));
        lemma_entry_prefix(s1[0], s2[0], t1, t2);
        assert forall|k: int| 0 <= k < s1.drop_first().len() implies entry_encodable(
            #[trigger] s1.drop_first()[k],
        ) by {
            assert(s1.drop_first()[k] == s1[k + 1]);
        }
        assert forall|k: int| 0 <= k < s2.drop_first().len() implies entry_encodable(
            #[trigger] s2.drop_first()[k],
        ) by {
            assert(s2.drop_first()[k] == s2[k + 1]);
        }
        lemma_entries_prefix(s1.drop_first(), s2.drop_first(), r1, r2);
        assert forall|i: int| 0 <= i < s1.len() implies s1[i] == s2[i] by {
            if i > 0 {
                assert(s1[i] == s1.drop_first()[i - 1]);
                assert(s2[i] == s2.drop_first()[i - 1]);
            }
        }
        assert(s1 =~= s2);
    }
}

proof fn lemma_canonical_shape(a: ContainerView)
    ensures
        canonical(a) == FORMAT_TAG@ + (len_bytes(a.code.len()) + (a.code + (len_bytes(a.consts.len())
            + (words_bytes(a.consts) + (len_bytes(a.entries.len()) + entries_bytes(a.entries)))))),
{
    let t = FORMAT_TAG@;
    let lc = len_bytes(a.code.len());
    let lk = len_bytes(a.consts.len());
    let w = words_bytes(a.consts);
    let le = len_bytes(a.entries.len());
    let e = entries_bytes(a.entries);
    lemma_assoc(t + lc + a.code + lk + w, le, e);
    lemma_assoc(t + lc + a.code + lk, w, le + e);
    lemma_assoc(t + lc + a.code, lk, w + (le + e));
    lemma_assoc(t + lc, a.code, lk + (w + (le + e)));
    lemma_assoc(t, lc, a.code + (lk + (w + (le + e))));
}

/// Two containers whose lengths fit the length prefixes have the same canonical
/// serialization only if they are the same container: a change to the code, the constants,
/// an entry offset or an access manifest changes the bytes the identifier is taken over.
pub proof fn law_canonical_injective(a: ContainerView, b: ContainerView)
    requires
        encodable(a),
        encodable(b),
        canonical(a) == canonical(b),
    ensures
        a == b,
{
    let e1 = len_bytes(a.entries.len()) + entries_bytes(a.entries);
    let e2 = len_bytes(b.entries.len()) + entries_bytes(b.entries);
    let w1 = words_bytes(a.consts) + e1;
    let w2 = words_bytes(b.consts) + e2;
    let k1 = len_bytes(a.consts.len()) + w1;
    let k2 = len_bytes(b.consts.len()) + w2;
    let c1 = a.code + k1;
    let c2 = b.code + k2;
    lemma_canonical_shape(a);
    lemma_canonical_shape(b);
    lemma_split(FORMAT_TAG@, len_bytes(a.code.len()) + c1, FORMAT_TAG@, len_bytes(b.code.len()) + c2);
    lemma_len_prefix(a.code.len(), b.code.len(), c1, c2);
    lemma_split(a.code, k1, b.code, k2);
    lemma_len_prefix(a.consts.len(), b.consts.len(), w1, w2);
    lemma_words_prefix(a.consts, b.consts, e1, e2);
    lemma_len_prefix(a.entries.len(), b.entries.len(), entries_bytes(a.entries), entries_bytes(b.entries));
    assert(entries_bytes(a.entries) + Seq::<u8>::empty() =~= entries_bytes(a.entries));
    assert(entries_bytes(b.entries) + Seq::<u8>::empty() =~= entries_bytes(b.entries));
    lemma_entries_prefix(a.entries, b.entries, Seq::empty(), Seq::empty());
}

// ---------------------------------------------------------------------------------------
// What the verifier guarantees to dispatch

proof fn lemma_scan_starts(code: Seq<u8>, nconsts: nat, pc: nat)
    requires
        code.len() <= u32::MAX,
    ensures
        scan(code, nconsts, pc) matches Ok((st, _)) ==> st == crate::semantics::boundary_set(code, pc),
    decreases code.len() - pc,
{
    if pc < code.len() {
        if let Ok((i, n)) = decode_at(code, pc as int) {
            lemma_decode_len_positive(code, pc as int);
            lemma_scan_starts(code, nconsts, pc + n);
        }
    }
}

proof fn lemma_entry_fault_none(entries: Seq<Entry>, k: nat, starts: Set<u32>)
    requires
        entry_fault(entries, k, starts) is None,
    ensures
        forall|j: int| k <= j < entries.len() ==> starts.contains(#[trigger] entries[j].offset),
        forall|i: int, j: int|
            0 <= i < j < entries.len() && k <= j ==> #[trigger] entries[i].selector != #[trigger] entries[j].selector,
    decreases entries.len() - k,
{
    if k < entries.len() {
        lemma_entry_fault_none(entries, k + 1, starts);
        assert forall|i: int, j: int|
            0 <= i < j < entries.len() && k <= j implies #[trigger] entries[i].selector != #[trigger] entries[j].selector by {
            if j == k {
                if entries[i].selector == entries[j].selector {
                    assert(exists|x: int| 0 <= x < k && entries[x].selector == entries[k as int].selector);
                }
            }
        }
    }
}

proof fn lemma_scan_decodes(code: Seq<u8>, nconsts: nat, pc: nat)
    requires
        pc <= code.len(),
    ensures
        scan(code, nconsts, pc) is Ok ==> crate::isa::decodes_from(code, pc),
    decreases code.len() - pc,
{
    if pc < code.len() {
        if let Ok((i, n)) = decode_at(code, pc as int) {
            lemma_decode_len_positive(code, pc as int);
            law_encode_decode(code, pc as int);
            lemma_scan_decodes(code, nconsts, pc + n);
        }
    }
}

/// The code of a container the deploy-time verifier accepts decodes, instruction after
/// instruction, up to exactly its end.
pub proof fn law_verified_code_decodes(c: Container)
    requires
        verify_result(c) == Ok::<(), VerifyError>(()),
    ensures
        crate::isa::decodes_from(c.code@, 0),
{
    lemma_scan_decodes(c.code@, c.consts@.len(), 0);
}

/// A container the deploy-time verifier accepts has every entry start at an instruction
/// boundary of its code, which is where a dispatched call may begin and jump, and no two
/// entries share a selector.
pub proof fn law_verified_entries(c: Container)
    requires
        verify_result(c) == Ok::<(), VerifyError>(()),
    ensures
        forall|k: int|
            0 <= k < c.entries@.len() ==> crate::semantics::boundary_set(c.code@, 0).contains(
                #[trigger] c.entries@[k].offset,
            ),
        forall|i: int, j: int|
            0 <= i < j < c.entries@.len() ==> #[trigger] c.entries@[i].selector
                != #[trigger] c.entries@[j].selector,
{
    let (starts, targets) = scan(c.code@, c.consts@.len(), 0)->Ok_0;
    lemma_scan_starts(c.code@, c.consts@.len(), 0);
    lemma_entry_fault_none(c.entries@, 0, starts);
}

proof fn lemma_scan_targets(code: Seq<u8>, nconsts: nat, pc: nat)
    requires
        code.len() <= u32::MAX,
    ensures
        scan(code, nconsts, pc) matches Ok((st, tg)) ==> forall|q: u32|
            #[trigger] st.contains(q) ==> (decode_at(code, q as int) matches Ok((i, _)) && forall|j: int|
                0 <= j < targets_of(i).len() ==> tg.contains(#[trigger] targets_of(i)[j])),
    decreases code.len() - pc,
{
    if pc < code.len() {
        if let Ok((i, n)) = decode_at(code, pc as int) {
            lemma_decode_len_positive(code, pc as int);
            lemma_scan_targets(code, nconsts, pc + n);
            if let Ok((st, tg)) = scan(code, nconsts, pc) {
                let (st1, tg1) = scan(code, nconsts, pc + n)->Ok_0;
                assert(tg == targets_of(i) + tg1);
                assert forall|q: u32| #[trigger] st.contains(q) implies (decode_at(code, q as int) matches Ok((i2, _))
                    && forall|j: int| 0 <= j < targets_of(i2).len() ==> tg.contains(#[trigger] targets_of(i2)[j])) by {
                    if q == pc as u32 {
                        assert forall|j: int| 0 <= j < targets_of(i).len() implies tg.contains(#[trigger] targets_of(i)[j]) by {
                            assert(tg[j] == targets_of(i)[j]);
                        }
                    } else {
                        assert(st1.contains(q));
                        let i2 = decode_at(code, q as int)->Ok_0.0;
                        assert forall|j: int| 0 <= j < targets_of(i2).len() implies tg.contains(#[trigger] targets_of(i2)[j]) by {
                            assert(tg1.contains(targets_of(i2)[j]));
                            let k = choose|k: int| 0 <= k < tg1.len() && tg1[k] == targets_of(i2)[j];
                            assert(tg[targets_of(i).len() + k] == tg1[k]);
                        }
                    }
                }
            }
        }
    }
}

proof fn lemma_first_misaligned_none(targets: Seq<u32>, starts: Set<u32>)
    requires
        first_misaligned(targets, starts) is None,
    ensures
        forall|k: int| 0 <= k < targets.len() ==> starts.contains(#[trigger] targets[k]),
    decreases targets.len(),
{
    if targets.len() > 0 {
        lemma_first_misaligned_none(targets.drop_first(), starts);
        assert forall|k: int| 0 <= k < targets.len() implies starts.contains(#[trigger] targets[k]) by {
            if k > 0 {
                assert(targets[k] == targets.drop_first()[k - 1]);
            }
        }
    }
}

/// In a container the deploy-time verifier accepts, every instruction boundary holds an
/// instruction, and every jump and call target it names is itself a boundary: static
/// control flow never lands inside an instruction.
pub proof fn law_verified_jumps_land_on_boundaries(c: Container)
    requires
        verify_result(c) == Ok::<(), VerifyError>(()),
    ensures
        forall|pc: u32|
            #[trigger] crate::semantics::boundary_set(c.code@, 0).contains(pc) ==> (decode_at(c.code@, pc as int) matches Ok((i, _))
                && forall|j: int|
                0 <= j < targets_of(i).len() ==> crate::semantics::boundary_set(c.code@, 0).contains(
                    #[trigger] targets_of(i)[j],
                )),
{
    let (starts, targets) = scan(c.code@, c.consts@.len(), 0)->Ok_0;
    lemma_scan_starts(c.code@, c.consts@.len(), 0);
    lemma_scan_targets(c.code@, c.consts@.len(), 0);
    lemma_first_misaligned_none(targets, starts);
}

/// In a container the verifier accepts, every branch lands on an instruction start: at each
/// instruction start holding JMP, JZ, JNZ or CALL, the target operand of that instruction is
/// itself an instruction start.
pub proof fn law_verified_branches_land_on_starts(c: Container)
    requires
        verify_result(c) == Ok::<(), VerifyError>(()),
    ensures
        forall|pc: u32|
            #[trigger] crate::semantics::boundary_set(c.code@, 0).contains(pc) ==> match decode_at(
                c.code@,
                pc as int,
            ) {
                Ok((Instr::Jmp { target }, _)) => crate::semantics::boundary_set(c.code@, 0).contains(target),
                Ok((Instr::Jz { target, .. }, _)) => crate::semantics::boundary_set(c.code@, 0).contains(target),
                Ok((Instr::Jnz { target, .. }, _)) => crate::semantics::boundary_set(c.code@, 0).contains(target),
                Ok((Instr::Call { target }, _)) => crate::semantics::boundary_set(c.code@, 0).contains(target),
                _ => true,
            },
{
    law_verified_jumps_land_on_boundaries(c);
    assert forall|pc: u32| #[trigger] crate::semantics::boundary_set(c.code@, 0).contains(pc) implies match decode_at(
        c.code@,
        pc as int,
    ) {
        Ok((Instr::Jmp { target }, _)) => crate::semantics::boundary_set(c.code@, 0).contains(target),
        Ok((Instr::Jz { target, .. }, _)) => crate::semantics::boundary_set(c.code@, 0).contains(target),
        Ok((Instr::Jnz { target, .. }, _)) => crate::semantics::boundary_set(c.code@, 0).contains(target),
        Ok((Instr::Call { target }, _)) => crate::semantics::boundary_set(c.code@, 0).contains(target),
        _ => true,
    } by {
        if let Ok((i, _)) = decode_at(c.code@, pc as int) {
            if targets_of(i).len() > 0 {
                assert(crate::semantics::boundary_set(c.code@, 0).contains(targets_of(i)[0]));
            }
        }
    }
}

/// Whether the deploy-time verifier accepts a container, by value: within the size limits,
/// its code walks end to end with constant indices in the pool, every target is an
/// instruction start, every entry offset is one, and no two entries share a selector.
pub open spec fn accepted(c: ContainerView) -> bool {
    &&& c.code.len() <= MAX_CODE_BYTES
    &&& c.consts.len() <= MAX_CONSTS
    &&& c.entries.len() <= MAX_ENTRIES
    &&& scan(c.code, c.consts.len(), 0) is Ok
    &&& first_misaligned(scan(c.code, c.consts.len(), 0)->Ok_0.1, scan(c.code, c.consts.len(), 0)->Ok_0.0) is None
    &&& forall|k: int|
        0 <= k < c.entries.len() ==> scan(c.code, c.consts.len(), 0)->Ok_0.0.contains(
            #[trigger] c.entries[k].offset,
        )
    &&& forall|j: int, k: int|
        0 <= j < k < c.entries.len() ==> #[trigger] c.entries[j].selector != #[trigger] c.entries[k].selector
}

proof fn lemma_selector_view_eq(a: [u8; SELECTOR_BYTES], b: [u8; SELECTOR_BYTES])
    ensures
        (a@ == b@) == (a == b),
{
    if a@ == b@ {
        assert forall|i: int| 0 <= i < SELECTOR_BYTES implies a[i] == b[i] by {
            assert(a@[i] == b@[i]);
        }
        assert(a =~= b);
    }
}

proof fn lemma_entry_fault_clear(entries: Seq<Entry>, k: nat, starts: Set<u32>)
    requires
        forall|j: int| k <= j < entries.len() ==> starts.contains(#[trigger] entries[j].offset),
        forall|i: int, j: int|
            0 <= i < j < entries.len() && k <= j ==> #[trigger] entries[i].selector != #[trigger] entries[j].selector,
    ensures
        entry_fault(entries, k, starts) is None,
    decreases entries.len() - k,
{
    if k < entries.len() {
        lemma_entry_fault_clear(entries, k + 1, starts);
        if exists|j: int| 0 <= j < k && entries[j].selector == entries[k as int].selector {
            let j = choose|j: int| 0 <= j < k && entries[j].selector == entries[k as int].selector;
            assert(entries[j].selector != entries[k as int].selector);
        }
    }
}

/// The verifier's decision, by value: it accepts a container exactly when `accepted` holds
/// of its view.
pub proof fn lemma_verify_accepted(c: Container)
    ensures
        (verify_result(c) is Ok) == accepted(c@),
{
    let ev = c@.entries;
    assert forall|k: int| 0 <= k < c.entries@.len() implies #[trigger] ev[k] == c.entries@[k]@ by {}
    assert forall|i: int, j: int| 0 <= i < c.entries@.len() && 0 <= j < c.entries@.len() implies (
    #[trigger] ev[i].selector == #[trigger] ev[j].selector) == (c.entries@[i].selector
        == c.entries@[j].selector) by {
        lemma_selector_view_eq(c.entries@[i].selector, c.entries@[j].selector);
    }
    if let Ok((starts, targets)) = scan(c.code@, c.consts@.len(), 0) {
        if verify_result(c) is Ok {
            lemma_entry_fault_none(c.entries@, 0, starts);
        }
        if accepted(c@) {
            assert forall|j: int| 0 <= j < c.entries@.len() implies starts.contains(#[trigger] c.entries@[j].offset) by {
                assert(ev[j].offset == c.entries@[j].offset);
            }
            assert forall|i: int, j: int| 0 <= i < j < c.entries@.len() && 0 <= j implies #[trigger] c.entries@[i].selector
                != #[trigger] c.entries@[j].selector by {
                assert(ev[i].selector != ev[j].selector);
                lemma_selector_view_eq(c.entries@[i].selector, c.entries@[j].selector);
            }
            lemma_entry_fault_clear(c.entries@, 0, starts);
        }
    }
}

} // verus!
