use vstd::prelude::*;
use vstd::bytes::{spec_u64_to_le_bytes, u64_to_le_bytes};
use crate::errors::ChainError;
use crate::hashing::{blake3_of, bytes_eq, copy_bytes, push_all, Blake3Hasher};
use crate::transaction::{batch_bytes, batch_is_wf, batch_wf, push_batch_bytes, tx_wf, ValidatedTransaction};

verus! {

/// Lifecycle tag: the chain has no entries yet.
pub struct Uninitialized;

/// Lifecycle tag: the genesis entry exists but has not been checked
/// against the fixed seed, so nothing in the chain may be trusted yet.
pub struct Initialized;

/// Lifecycle tag: the genesis entry matched the fixed seed. The running
/// tip (`last_hash`, `last_timestamp`) seeds subsequent appends without
/// rescanning the chain.
pub struct Verified {
    pub last_hash: Vec<u8>,
    pub last_timestamp: u64,
}

/// One tick of the timeline: a timestamp, the digest chaining this entry
/// to its predecessor, and the transactions the tick carries.
#[derive(Clone)]
pub struct PohEntry {
    pub timestamp: u64,
    pub poh_hash: Vec<u8>,
    pub transactions: Vec<ValidatedTransaction>,
}

/// The proof-of-history chain: an append-only, hash-linked sequence of
/// entries, tagged with its lifecycle state.
pub struct Poh<S> {
    pub entries: Vec<PohEntry>,
    pub state: S,
}

/// The fixed constant seed whose digest is the genesis hash: the bytes
/// of "genesis".
pub open spec fn genesis_seed() -> Seq<u8> {
    seq![103u8, 101u8, 110u8, 101u8, 115u8, 105u8, 115u8]
}

/// The only hash a genesis entry may carry.
pub open spec fn genesis_hash() -> Seq<u8> {
    blake3_of(genesis_seed())
}

/// The digest of an entry: the previous entry's hash, then the
/// little-endian timestamp, then the canonical bytes of the payload,
/// hashed as one byte string.
pub open spec fn entry_hash(prev: Seq<u8>, timestamp: u64, txs: Seq<ValidatedTransaction>) -> Seq<
    u8,
> {
    blake3_of(prev + spec_u64_to_le_bytes(timestamp) + batch_bytes(txs))
}

/// Whether entry `i` of the chain re-derives: its payload canonicalizes
/// and its stored hash equals the hash recomputed from the previous
/// entry's stored hash, its timestamp and its payload.
pub open spec fn entry_ok(es: Seq<PohEntry>, i: int) -> bool {
    &&& batch_wf(es[i].transactions@)
    &&& es[i].poh_hash@ == entry_hash(es[i - 1].poh_hash@, es[i].timestamp, es[i].transactions@)
}

/// What full-chain verification re-derives: the chain is non-empty and
/// every entry after genesis re-derives from its recorded predecessor.
pub open spec fn chain_verifies(es: Seq<PohEntry>) -> bool {
    &&& es.len() > 0
    &&& forall|i: int| 1 <= i < es.len() ==> entry_ok(es, i)
}

/// Whether the entries' timestamps strictly increase along the chain.
pub open spec fn timestamps_increasing(es: Seq<PohEntry>) -> bool {
    forall|i: int, j: int| 0 <= i < j < es.len() ==> es[i].timestamp < es[j].timestamp
}

/// Whether some entry of the chain carries exactly this (timestamp, hash)
/// claim.
pub open spec fn reference_in(es: Seq<PohEntry>, t: u64, h: Seq<u8>) -> bool {
    exists|i: int|
        0 <= i < es.len() && es[i].timestamp == t && es[i].poh_hash@ == h
}

/// The fixed seed as bytes.
fn genesis_seed_bytes() -> (r: Vec<u8>)
    ensures
        r@ == genesis_seed(),
{
    let mut v: Vec<u8> = Vec::new();
    v.push(103u8);
    v.push(101u8);
    v.push(110u8);
    v.push(101u8);
    v.push(115u8);
    v.push(105u8);
    v.push(115u8);
    proof {
        assert(v@ =~= genesis_seed());
    }
    v
}

/// The digest of one entry, recomputed from its parts.
fn calculate_hash(prev_hash: &Vec<u8>, timestamp: u64, transactions: &Vec<ValidatedTransaction>) -> (r: Vec<u8>)
    requires
        batch_wf(transactions@),
    ensures
        r@ == entry_hash(prev_hash@, timestamp, transactions@),
        r@.len() == 32,
{
    let mut buf: Vec<u8> = Vec::new();
    push_all(&mut buf, prev_hash);
    let ts_bytes = u64_to_le_bytes(timestamp);
    push_all(&mut buf, &ts_bytes);
    push_batch_bytes(&mut buf, transactions);
    Blake3Hasher::hash(buf.as_slice())
}

impl Poh<Uninitialized> {
    /// A chain with no entries, awaiting initialization.
    pub fn new() -> (r: Self)
        ensures
            r.entries@.len() == 0,
    {
        Poh { entries: Vec::new(), state: Uninitialized }
    }

    /// Creates the genesis entry, whose hash is the digest of the fixed
    /// constant seed, at the supplied timestamp. Consuming the
    /// uninitialized chain makes a second initialization of the same
    /// chain value impossible.
    pub fn initialize(self, timestamp: u64) -> (r: Poh<Initialized>)
        ensures
            r.entries@.len() == 1,
            r.entries@[0].timestamp == timestamp,
            r.entries@[0].poh_hash@ == genesis_hash(),
            r.entries@[0].transactions@.len() == 0,
    {
        let seed = genesis_seed_bytes();
        let poh_hash = Blake3Hasher::hash(seed.as_slice());
        let mut entries: Vec<PohEntry> = Vec::new();
        entries.push(PohEntry { timestamp, poh_hash, transactions: Vec::new() });
        Poh { entries, state: Initialized }
    }
}

impl Poh<Verified> {
    /// Validity of a verified chain: the whole chain re-derives, the tip
    /// mirrors the last entry, and timestamps strictly increase (which
    /// makes ordered lookup sound). Every operation on a verified chain
    /// preserves it.
    pub open spec fn wf(&self) -> bool {
        &&& chain_verifies(self.entries@)
        &&& self.state.last_hash@ == self.entries@.last().poh_hash@
        &&& self.state.last_timestamp == self.entries@.last().timestamp
        &&& timestamps_increasing(self.entries@)
    }
}

impl Poh<Initialized> {
    /// Checks the genesis entry's hash against the digest of the fixed
    /// seed and, on success, transitions to the verified state, seeding
    /// the running tip from genesis. Fails with `IntegrityError` when the
    /// chain does not consist of exactly the genesis entry or the hash
    /// does not match.
    pub fn verify_genesis(self) -> (r: Result<Poh<Verified>, ChainError>)
        ensures
            r matches Ok(c) ==> {
                &&& self.entries@.len() == 1
                &&& self.entries@[0].poh_hash@ == genesis_hash()
                &&& c.entries@ == self.entries@
                &&& c.wf()
            },
            r matches Err(e) ==> {
                &&& e == ChainError::IntegrityError
                &&& !(self.entries@.len() == 1 && self.entries@[0].poh_hash@ == genesis_hash())
            },
    {
        if self.entries.len() != 1 {
            return Err(ChainError::IntegrityError);
        }
        let seed = genesis_seed_bytes();
        let expected = Blake3Hasher::hash(seed.as_slice());
        let genesis = &self.entries[0];
        if !bytes_eq(&genesis.poh_hash, &expected) {
            return Err(ChainError::IntegrityError);
        }
        let last_hash = copy_bytes(&genesis.poh_hash);
        let last_timestamp = genesis.timestamp;
        Ok(Poh { entries: self.entries, state: Verified { last_hash, last_timestamp } })
    }
}

/// The payload sequence an optional transaction stands for: one entry
/// when present, none otherwise.
pub open spec fn opt_txs(t: Option<ValidatedTransaction>) -> Seq<ValidatedTransaction> {
    match t {
        Some(x) => seq![x],
        None => Seq::empty(),
    }
}

impl Poh<Verified> {
    /// Appends one entry at the supplied timestamp, carrying zero or one
    /// transaction, and returns the new tip hash. Fails with
    /// `ConfigurationError` when the timestamp does not advance past the
    /// tip (a non-monotonic clock), and with `InvalidArgument` when the
    /// transaction does not canonicalize; in both cases the chain is
    /// unchanged.
    pub fn append_entry(&mut self, timestamp: u64, transaction: Option<ValidatedTransaction>) -> (r:
        Result<Vec<u8>, ChainError>)
        requires
            old(self).wf(),
        ensures
            final(self).wf(),
            timestamp <= old(self).state.last_timestamp ==> {
                &&& r matches Err(e) && e == ChainError::ConfigurationError
                &&& *final(self) == *old(self)
            },
            timestamp > old(self).state.last_timestamp && !batch_wf(opt_txs(transaction)) ==> {
                &&& r matches Err(e) && e == ChainError::InvalidArgument
                &&& *final(self) == *old(self)
            },
            timestamp > old(self).state.last_timestamp && batch_wf(opt_txs(transaction)) ==> {
                let es0 = old(self).entries@;
                let h = entry_hash(old(self).state.last_hash@, timestamp, opt_txs(transaction));
                &&& r matches Ok(v) && v@ == h
                &&& final(self).entries@.len() == es0.len() + 1
                &&& forall|i: int| 0 <= i < es0.len() ==> final(self).entries@[i] == es0[i]
                &&& final(self).entries@.last().timestamp == timestamp
                &&& final(self).entries@.last().poh_hash@ == h
                &&& final(self).entries@.last().transactions@ == opt_txs(transaction)
                &&& final(self).state.last_hash@ == h
                &&& final(self).state.last_timestamp == timestamp
            },
    {
        if timestamp <= self.state.last_timestamp {
            return Err(ChainError::ConfigurationError);
        }
        let mut txs: Vec<ValidatedTransaction> = Vec::new();
        match transaction {
            None => {},
            Some(t) => {
                txs.push(t);
            },
        }
        proof {
            assert(txs@ =~= opt_txs(transaction));
        }
        if !batch_is_wf(&txs) {
            return Err(ChainError::InvalidArgument);
        }
        let new_hash = calculate_hash(&self.state.last_hash, timestamp, &txs);
        let entry_hash_copy = copy_bytes(&new_hash);
        let state_hash_copy = copy_bytes(&new_hash);
        self.entries.push(PohEntry { timestamp, poh_hash: entry_hash_copy, transactions: txs });
        self.state.last_hash = state_hash_copy;
        self.state.last_timestamp = timestamp;
        proof {
            let es0 = old(self).entries@;
            let es1 = self.entries@;
            assert forall|i: int| 1 <= i < es1.len() implies entry_ok(es1, i) by {
                if i < es0.len() {
                    assert(entry_ok(es0, i));
                } else {
                    assert(es1[i - 1] == es0.last());
                }
            }
            assert forall|i: int, j: int| 0 <= i < j < es1.len() implies es1[i].timestamp
                < es1[j].timestamp by {
                if j < es0.len() {
                    assert(es0[i].timestamp < es0[j].timestamp);
                } else {
                    if i < es0.len() - 1 {
                        assert(es0[i].timestamp < es0.last().timestamp);
                    }
                }
            }
        }
        Ok(new_hash)
    }

    /// Appends one entry per transaction of a non-empty batch. Entry `k`
    /// gets timestamp `base_time + k` and chains off the hash computed
    /// for entry `k - 1` (off the pre-batch tip for `k == 0`), so the
    /// batch is equivalent to sequential single appends at those
    /// timestamps. Returns the per-entry hashes in order. Fails with
    /// `InvalidArgument` on an empty batch or a transaction that does not
    /// canonicalize, and with `ConfigurationError` when `base_time` does
    /// not advance past the tip; in every failure the chain is unchanged.
    pub fn append_entries(&mut self, base_time: u64, transactions: Vec<ValidatedTransaction>) -> (r:
        Result<Vec<Vec<u8>>, ChainError>)
        requires
            old(self).wf(),
            base_time + transactions@.len() <= u64::MAX + 1,
        ensures
            final(self).wf(),
            transactions@.len() == 0 ==> {
                &&& r matches Err(e) && e == ChainError::InvalidArgument
                &&& *final(self) == *old(self)
            },
            transactions@.len() > 0 && base_time <= old(self).state.last_timestamp ==> {
                &&& r matches Err(e) && e == ChainError::ConfigurationError
                &&& *final(self) == *old(self)
            },
            transactions@.len() > 0 && base_time > old(self).state.last_timestamp && !batch_wf(
                transactions@,
            ) ==> {
                &&& r matches Err(e) && e == ChainError::InvalidArgument
                &&& *final(self) == *old(self)
            },
            transactions@.len() > 0 && base_time > old(self).state.last_timestamp && batch_wf(
                transactions@,
            ) ==> {
                let n = transactions@.len();
                let es0 = old(self).entries@;
                let m = es0.len();
                &&& final(self).entries@.len() == m + n
                &&& (forall|i: int| 0 <= i < m ==> final(self).entries@[i] == es0[i])
                &&& (forall|k: int|
                    0 <= k < n ==> {
                        let e = #[trigger] final(self).entries@[m + k];
                        &&& e.timestamp == base_time + k
                        &&& e.transactions@ == seq![transactions@[k]]
                        &&& e.poh_hash@ == entry_hash(
                            if k == 0 {
                                old(self).state.last_hash@
                            } else {
                                final(self).entries@[m + k - 1].poh_hash@
                            },
                            (base_time + k) as u64,
                            seq![transactions@[k]],
                        )
                    })
                &&& r matches Ok(hs) && hs@.len() == n && (forall|k: int|
                    0 <= k < n ==> #[trigger] hs@[k]@ == final(self).entries@[m + k].poh_hash@)
                &&& final(self).state.last_hash@ == final(self).entries@.last().poh_hash@
                &&& final(self).state.last_timestamp == base_time + n - 1
            },
    {
        let n = transactions.len();
        if n == 0 {
            return Err(ChainError::InvalidArgument);
        }
        if base_time <= self.state.last_timestamp {
            return Err(ChainError::ConfigurationError);
        }
        if !batch_is_wf(&transactions) {
            return Err(ChainError::InvalidArgument);
        }
        let ghost txs0 = transactions@;
        let ghost m = self.entries@.len();
        let mut rest = transactions;
        let mut hashes: Vec<Vec<u8>> = Vec::new();
        let mut current_hash = copy_bytes(&self.state.last_hash);
        let mut k: usize = 0;
        while k < n
            invariant
                0 <= k <= n,
                n == txs0.len(),
                base_time + n <= u64::MAX + 1,
                base_time > old(self).state.last_timestamp,
                batch_wf(txs0),
                rest@ =~= txs0.skip(k as int),
                m == old(self).entries@.len(),
                old(self).wf(),
                self.state == old(self).state,
                self.entries@.len() == m + k,
                forall|i: int| 0 <= i < m ==> self.entries@[i] == old(self).entries@[i],
                forall|t: int|
                    0 <= t < k ==> {
                        let e = #[trigger] self.entries@[m + t];
                        &&& e.timestamp == base_time + t
                        &&& e.transactions@ == seq![txs0[t]]
                        &&& e.poh_hash@ == entry_hash(
                            if t == 0 {
                                old(self).state.last_hash@
                            } else {
                                self.entries@[m + t - 1].poh_hash@
                            },
                            (base_time + t) as u64,
                            seq![txs0[t]],
                        )
                    },
                current_hash@ == self.entries@.last().poh_hash@,
                self.entries@.last().timestamp == if k == 0 {
                    old(self).state.last_timestamp
                } else {
                    (base_time + k - 1) as u64
                },
                hashes@.len() == k,
                forall|t: int|
                    0 <= t < k ==> #[trigger] hashes@[t]@ == self.entries@[m + t].poh_hash@,
                chain_verifies(self.entries@),
                timestamps_increasing(self.entries@),
            decreases n - k,
        {
            let timestamp = base_time + (k as u64);
            let tx = rest.remove(0);
            proof {
                assert(tx == txs0[k as int]);
                assert(rest@ =~= txs0.skip(k + 1));
                assert(tx_wf(txs0[k as int]));
            }
            let mut txs_one: Vec<ValidatedTransaction> = Vec::new();
            txs_one.push(tx);
            proof {
                assert(txs_one@ =~= seq![txs0[k as int]]);
            }
            let new_hash = calculate_hash(&current_hash, timestamp, &txs_one);
            let entry_hash_copy = copy_bytes(&new_hash);
            let ghost es_before = self.entries@;
            self.entries.push(
                PohEntry { timestamp, poh_hash: entry_hash_copy, transactions: txs_one },
            );
            hashes.push(copy_bytes(&new_hash));
            current_hash = new_hash;
            proof {
                let es1 = self.entries@;
                assert forall|i: int| 1 <= i < es1.len() implies entry_ok(es1, i) by {
                    if i < es_before.len() {
                        assert(entry_ok(es_before, i));
                    } else {
                        assert(es1[i - 1] == es_before.last());
                    }
                }
                assert forall|i: int, j: int| 0 <= i < j < es1.len() implies es1[i].timestamp
                    < es1[j].timestamp by {
                    if j < es_before.len() {
                        assert(es_before[i].timestamp < es_before[j].timestamp);
                    } else {
                        if i < es_before.len() - 1 {
                            assert(es_before[i].timestamp < es_before.last().timestamp);
                        }
                    }
                }
            }
            k = k + 1;
        }
        let new_tip = copy_bytes(&current_hash);
        self.state.last_hash = new_tip;
        self.state.last_timestamp = base_time + ((n - 1) as u64);
        Ok(hashes)
    }

    /// The authoritative re-derivation: recomputes the hash of every
    /// entry after genesis from its recorded predecessor hash, timestamp
    /// and payload, trusting no stored hash without recomputation, and
    /// reports whether the non-empty chain matches throughout.
    pub fn verify_entries(&self) -> (r: bool)
        ensures
            r == chain_verifies(self.entries@),
    {
        let n = self.entries.len();
        if n == 0 {
            return false;
        }
        let mut i: usize = 1;
        while i < n
            invariant
                n == self.entries@.len(),
                1 <= i <= n,
                forall|j: int| 1 <= j < i ==> entry_ok(self.entries@, j),
            decreases n - i,
        {
            let e = &self.entries[i];
            if !batch_is_wf(&e.transactions) {
                proof {
                    assert(!entry_ok(self.entries@, i as int));
                }
                return false;
            }
            let computed = calculate_hash(&self.entries[i - 1].poh_hash, e.timestamp, &e.transactions);
            if !bytes_eq(&computed, &e.poh_hash) {
                proof {
                    assert(!entry_ok(self.entries@, i as int));
                }
                return false;
            }
            i = i + 1;
        }
        true
    }

    /// Ordered lookup of a (timestamp, hash) claim: reports whether some
    /// entry of the chain carries exactly that timestamp and hash. A
    /// mismatch is a normal outcome, not an error. Logarithmic, since a
    /// verified chain's timestamps strictly increase.
    pub fn verify_reference(&self, reference: &(u64, Vec<u8>)) -> (r: bool)
        requires
            self.wf(),
        ensures
            r == reference_in(self.entries@, reference.0, reference.1@),
    {
        let t = reference.0;
        let n = self.entries.len();
        let mut lo: usize = 0;
        let mut hi: usize = n;
        while lo < hi
            invariant
                self.wf(),
                t == reference.0,
                n == self.entries@.len(),
                0 <= lo <= hi <= n,
                forall|i: int| 0 <= i < lo ==> self.entries@[i].timestamp < t,
                forall|i: int| hi <= i < n ==> self.entries@[i].timestamp > t,
            decreases hi - lo,
        {
            let mid = lo + (hi - lo) / 2;
            let e = &self.entries[mid];
            if e.timestamp < t {
                lo = mid + 1;
            } else if e.timestamp > t {
                hi = mid;
            } else {
                let r = bytes_eq(&e.poh_hash, &reference.1);
                proof {
                    let es = self.entries@;
                    assert(es[mid as int].timestamp == t);
                    assert(r == (es[mid as int].poh_hash@ == reference.1@));
                    if r {
                        assert(reference_in(es, t, reference.1@));
                    } else {
                        assert forall|i: int|
                            0 <= i < n && es[i].timestamp == t implies i == mid by {
                            if i < mid {
                                assert(es[i].timestamp < es[mid as int].timestamp);
                            }
                            if i > mid {
                                assert(es[mid as int].timestamp < es[i].timestamp);
                            }
                        }
                        if reference_in(es, t, reference.1@) {
                            let w = choose|i: int|
                                0 <= i < es.len() && es[i].timestamp == t && es[i].poh_hash@
                                    == reference.1@;
                            assert(w == mid);
                            assert(false);
                        }
                    }
                }
                return r;
            }
        }
        proof {
            assert forall|i: int| 0 <= i < n implies self.entries@[i].timestamp != t by {
                if i < lo {
                    assert(self.entries@[i].timestamp < t);
                } else {
                    assert(self.entries@[i].timestamp > t);
                }
            }
        }
        false
    }
}

/// Law: a well-formed verified chain passes full re-derivation. In
/// particular, after any successful batch append — which preserves
/// well-formedness — `verify_entries` returns true.
pub proof fn lemma_wf_chain_verifies(c: &Poh<Verified>)
    requires
        c.wf(),
    ensures
        chain_verifies(c.entries@),
{
}

/// Law: re-running verification yields the same result, since the result
/// of `verify_entries` is a function of the chain value alone and the
/// chain is not mutated by it.
pub proof fn lemma_verify_entries_idempotent(c: &Poh<Verified>, r1: bool, r2: bool)
    requires
        r1 == chain_verifies(c.entries@),
        r2 == chain_verifies(c.entries@),
    ensures
        r1 == r2,
{
}

/// Law: a reference taken verbatim from an entry of a well-formed chain
/// is accepted, and at that entry's timestamp any other hash is refused.
pub proof fn lemma_reference_roundtrip(c: &Poh<Verified>, i: int, h: Seq<u8>)
    requires
        c.wf(),
        0 <= i < c.entries@.len(),
    ensures
        reference_in(c.entries@, c.entries@[i].timestamp, c.entries@[i].poh_hash@),
        h != c.entries@[i].poh_hash@ ==> !reference_in(c.entries@, c.entries@[i].timestamp, h),
{
    let es = c.entries@;
    let t = es[i].timestamp;
    assert(reference_in(es, t, es[i].poh_hash@));
    if h != es[i].poh_hash@ {
        assert forall|j: int| 0 <= j < es.len() && es[j].timestamp == t implies j == i by {
            if j < i {
                assert(es[j].timestamp < es[i].timestamp);
            }
            if j > i {
                assert(es[i].timestamp < es[j].timestamp);
            }
        }
    }
}

} // verus!

