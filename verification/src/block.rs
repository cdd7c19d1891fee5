use vstd::prelude::*;
use vstd::bytes::{spec_u32_to_le_bytes, spec_u64_to_le_bytes, u32_to_le_bytes, u64_to_le_bytes};
use crate::errors::ChainError;
use crate::hashing::{blake3_of, bytes_eq, Blake3Hasher, push_all};
use crate::poh::{reference_in, Poh, Verified};
use crate::transaction::{batch_bytes, batch_is_wf, batch_wf, push_batch_bytes, tx_wf, ValidatedTransaction};

verus! {

/// A block still accumulating transactions, mutable only by appending
/// while under its capacity bound; finalization consumes it.
pub struct PendingBlock {
    pub previous_hash: Vec<u8>,
    pub transactions: Vec<ValidatedTransaction>,
    pub max_transactions: usize,
    pub timestamp: u64,
}

/// A finalized block: its hash binds index, previous hash, timestamp and
/// transaction payloads to a specific chain reference. Immutable once
/// created.
pub struct CommittedBlock {
    pub index: u32,
    pub timestamp: u64,
    pub previous_hash: Vec<u8>,
    pub hash: Vec<u8>,
    pub poh_reference: (u64, Vec<u8>),
    pub transactions: Vec<ValidatedTransaction>,
}

/// The byte string whose digest is a block's content hash: little-endian
/// index, the previous block hash, the little-endian timestamp, then the
/// canonical bytes of the transactions.
pub open spec fn block_bytes(
    index: u32,
    prev: Seq<u8>,
    timestamp: u64,
    txs: Seq<ValidatedTransaction>,
) -> Seq<u8> {
    spec_u32_to_le_bytes(index) + prev + spec_u64_to_le_bytes(timestamp) + batch_bytes(txs)
}

/// A block's content hash, a pure function of its bound fields.
pub open spec fn block_hash(
    index: u32,
    prev: Seq<u8>,
    timestamp: u64,
    txs: Seq<ValidatedTransaction>,
) -> Seq<u8> {
    blake3_of(block_bytes(index, prev, timestamp, txs))
}

/// A block's content hash, recomputed from its parts.
fn calculate_hash(
    index: u32,
    previous_hash: &Vec<u8>,
    timestamp: u64,
    transactions: &Vec<ValidatedTransaction>,
) -> (r: Vec<u8>)
    requires
        batch_wf(transactions@),
    ensures
        r@ == block_hash(index, previous_hash@, timestamp, transactions@),
        r@.len() == 32,
{
    let mut buf = u32_to_le_bytes(index);
    push_all(&mut buf, previous_hash);
    let ts_bytes = u64_to_le_bytes(timestamp);
    push_all(&mut buf, &ts_bytes);
    push_batch_bytes(&mut buf, transactions);
    Blake3Hasher::hash(buf.as_slice())
}

impl PendingBlock {
    /// A fresh block under the given capacity bound, holding no
    /// transactions yet.
    pub fn new(previous_hash: Vec<u8>, max_transactions: usize) -> (r: Self)
        ensures
            r.previous_hash == previous_hash,
            r.transactions@.len() == 0,
            r.max_transactions == max_transactions,
            r.timestamp == 0u64,
    {
        PendingBlock { previous_hash, transactions: Vec::new(), max_transactions, timestamp: 0 }
    }

    /// Appends a transaction while the block is under capacity. A full
    /// block reports `InvalidArgument` — the capacity-exceeded outcome is
    /// signalled, never a silent drop — and a transaction that does not
    /// canonicalize is rejected the same way; in both cases the block is
    /// unchanged.
    pub fn add_transaction(&mut self, transaction: ValidatedTransaction) -> (r: Result<
        (),
        ChainError,
    >)
        ensures
            old(self).transactions@.len() >= old(self).max_transactions ==> {
                &&& r matches Err(e) && e == ChainError::InvalidArgument
                &&& *final(self) == *old(self)
            },
            old(self).transactions@.len() < old(self).max_transactions && !tx_wf(transaction)
                ==> {
                &&& r matches Err(e) && e == ChainError::InvalidArgument
                &&& *final(self) == *old(self)
            },
            old(self).transactions@.len() < old(self).max_transactions && tx_wf(transaction)
                ==> {
                &&& r matches Ok(u)
                &&& final(self).transactions@ == old(self).transactions@.push(transaction)
                &&& final(self).previous_hash == old(self).previous_hash
                &&& final(self).max_transactions == old(self).max_transactions
                &&& final(self).timestamp == old(self).timestamp
            },
    {
        if self.transactions.len() >= self.max_transactions {
            return Err(ChainError::InvalidArgument);
        }
        let mut one: Vec<ValidatedTransaction> = Vec::new();
        one.push(transaction);
        if !batch_is_wf(&one) {
            proof {
                assert(!tx_wf(one@[0]));
            }
            return Err(ChainError::InvalidArgument);
        }
        proof {
            assert(tx_wf(one@[0]));
        }
        match one.pop() {
            Some(t) => {
                self.transactions.push(t);
                Ok(())
            },
            None => {
                proof {
                    assert(false);
                }
                Err(ChainError::InvalidArgument)
            },
        }
    }

    /// Consumes the pending block and binds its contents to the given
    /// index and chain reference: the committed block's timestamp is the
    /// reference's position and its hash is the content hash over index,
    /// previous hash, timestamp and transactions. No further mutation is
    /// possible afterwards.
    pub fn finalize(self, index: u32, poh_reference: (u64, Vec<u8>)) -> (r: CommittedBlock)
        requires
            batch_wf(self.transactions@),
        ensures
            r.index == index,
            r.timestamp == poh_reference.0,
            r.previous_hash == self.previous_hash,
            r.poh_reference == poh_reference,
            r.transactions == self.transactions,
            r.hash@ == block_hash(index, self.previous_hash@, poh_reference.0, self.transactions@),
    {
        let timestamp = poh_reference.0;
        let hash = calculate_hash(index, &self.previous_hash, timestamp, &self.transactions);
        CommittedBlock {
            index,
            timestamp,
            previous_hash: self.previous_hash,
            hash,
            poh_reference,
            transactions: self.transactions,
        }
    }
}

impl CommittedBlock {
    /// What block verification re-derives against a chain: the block's
    /// reference resolves in the chain, its transactions canonicalize,
    /// and its stored hash equals the content hash recomputed from its
    /// stored fields.
    pub open spec fn verifies_against(&self, es: Seq<crate::poh::PohEntry>) -> bool {
        &&& reference_in(es, self.poh_reference.0, self.poh_reference.1@)
        &&& batch_wf(self.transactions@)
        &&& self.hash@ == block_hash(
            self.index,
            self.previous_hash@,
            self.timestamp,
            self.transactions@,
        )
    }

    /// The sole authority for "is this block legitimate": the chain
    /// reference must resolve in the verified chain, and the content hash
    /// recomputed from the stored fields must equal the stored hash. Any
    /// single failure invalidates the block; failure is a normal outcome,
    /// not an error.
    pub fn verify(&self, poh: &Poh<Verified>) -> (r: bool)
        requires
            poh.wf(),
        ensures
            r == self.verifies_against(poh.entries@),
    {
        if !poh.verify_reference(&self.poh_reference) {
            return false;
        }
        if !batch_is_wf(&self.transactions) {
            return false;
        }
        let computed = calculate_hash(
            self.index,
            &self.previous_hash,
            self.timestamp,
            &self.transactions,
        );
        bytes_eq(&computed, &self.hash)
    }
}

/// Law: a freshly finalized block verifies against its originating chain.
/// The hash equality is exactly what `finalize` establishes, and the
/// reference resolves whenever it was taken from an entry of the chain.
pub proof fn lemma_finalized_block_verifies(b: &CommittedBlock, c: &Poh<Verified>)
    requires
        c.wf(),
        batch_wf(b.transactions@),
        reference_in(c.entries@, b.poh_reference.0, b.poh_reference.1@),
        b.hash@ == block_hash(b.index, b.previous_hash@, b.timestamp, b.transactions@),
    ensures
        b.verifies_against(c.entries@),
{
}

/// Law: re-running block verification yields the same result, since the
/// result is a function of the block and chain values alone and neither
/// is mutated by it.
pub proof fn lemma_block_verify_idempotent(
    b: &CommittedBlock,
    c: &Poh<Verified>,
    r1: bool,
    r2: bool,
)
    requires
        r1 == b.verifies_against(c.entries@),
        r2 == b.verifies_against(c.entries@),
    ensures
        r1 == r2,
{
}

} // verus!
