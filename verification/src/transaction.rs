use vstd::prelude::*;
use vstd::bytes::{spec_u32_to_le_bytes, spec_u64_to_le_bytes, u32_to_le_bytes, u64_to_le_bytes};
use crate::errors::ChainError;
use crate::hashing::push_all;

verus! {

/// A transaction as it arrives from the outside: not yet signed, not yet
/// admitted to the core. `amount` carries the 64-bit representation of the
/// monetary amount; only its little-endian bytes ever enter the canonical
/// encoding, so the core treats it as an opaque 64-bit pattern.
pub struct Transaction {
    pub id: u32,
    pub sender: Vec<u8>,
    pub receiver: Vec<u8>,
    pub amount: u64,
    pub signature: Option<Vec<u8>>,
}

/// A transaction that passed validation: it is signed, and none of its
/// byte fields contains the zero byte that the canonical encoding uses
/// as a field separator.
#[derive(Clone)]
pub struct ValidatedTransaction {
    pub id: u32,
    pub sender: Vec<u8>,
    pub receiver: Vec<u8>,
    pub amount: u64,
    pub signature: Vec<u8>,
}

/// Whether a byte string is free of the zero byte, the canonical
/// encoding's separator.
pub open spec fn no_zero_byte(s: Seq<u8>) -> bool {
    forall|i: int| 0 <= i < s.len() ==> s[i] != 0u8
}

/// Well-formedness of a validated transaction: a hidden separator inside
/// `sender`, `receiver` or `signature` would let two distinct transactions
/// canonicalize to the same bytes, so all three must be zero-free.
pub open spec fn tx_wf(t: ValidatedTransaction) -> bool {
    &&& no_zero_byte(t.sender@)
    &&& no_zero_byte(t.receiver@)
    &&& no_zero_byte(t.signature@)
}

/// The canonical byte encoding of a transaction: fixed-width little-endian
/// id, sender, a zero separator, receiver, a zero separator, little-endian
/// amount, then the signature — no length prefixes.
pub open spec fn tx_bytes(t: ValidatedTransaction) -> Seq<u8> {
    spec_u32_to_le_bytes(t.id) + t.sender@ + seq![0u8] + t.receiver@ + seq![0u8]
        + spec_u64_to_le_bytes(t.amount) + t.signature@
}

/// Whether a byte vector holds a zero byte.
pub fn has_zero_byte(v: &Vec<u8>) -> (r: bool)
    ensures
        r == !no_zero_byte(v@),
{
    let n = v.len();
    let mut i: usize = 0;
    while i < n
        invariant
            n == v@.len(),
            0 <= i <= n,
            forall|j: int| 0 <= j < i ==> v@[j] != 0u8,
        decreases n - i,
    {
        if v[i] == 0 {
            return true;
        }
        i = i + 1;
    }
    false
}

/// Well-formedness of a whole batch: every transaction in it is
/// well-formed.
pub open spec fn batch_wf(txs: Seq<ValidatedTransaction>) -> bool {
    forall|i: int| 0 <= i < txs.len() ==> tx_wf(txs[i])
}

/// The concatenation of the canonical encodings of a batch, in order and
/// with no framing between them.
pub open spec fn batch_bytes(txs: Seq<ValidatedTransaction>) -> Seq<u8>
    decreases txs.len(),
{
    if txs.len() == 0 {
        Seq::empty()
    } else {
        batch_bytes(txs.drop_last()) + tx_bytes(txs.last())
    }
}

/// Appends the canonical encodings of a well-formed batch to `dst`, in
/// order and with no framing between them.
pub fn push_batch_bytes(dst: &mut Vec<u8>, txs: &Vec<ValidatedTransaction>)
    requires
        batch_wf(txs@),
    ensures
        final(dst)@ == old(dst)@ + batch_bytes(txs@),
{
    let n = txs.len();
    let mut i: usize = 0;
    while i < n
        invariant
            batch_wf(txs@),
            n == txs@.len(),
            0 <= i <= n,
            dst@ == old(dst)@ + batch_bytes(txs@.take(i as int)),
        decreases n - i,
    {
        let t = &txs[i];
        proof {
            assert(tx_wf(txs@[i as int]));
        }
        match t.to_bytes() {
            Ok(b) => {
                push_all(dst, &b);
            },
            Err(_) => {
                proof {
                    assert(false);
                }
            },
        }
        proof {
            let pre = txs@.take(i as int);
            let post = txs@.take(i + 1);
            assert(post.drop_last() =~= pre);
            assert(post.last() == txs@[i as int]);
        }
        i = i + 1;
    }
    proof {
        assert(txs@.take(n as int) =~= txs@);
    }
}

/// Whether every transaction of the batch is well-formed.
pub fn batch_is_wf(txs: &Vec<ValidatedTransaction>) -> (r: bool)
    ensures
        r == batch_wf(txs@),
{
    let n = txs.len();
    let mut i: usize = 0;
    while i < n
        invariant
            n == txs@.len(),
            0 <= i <= n,
            forall|j: int| 0 <= j < i ==> tx_wf(txs@[j]),
        decreases n - i,
    {
        let t = &txs[i];
        if has_zero_byte(&t.sender) || has_zero_byte(&t.receiver) || has_zero_byte(&t.signature) {
            proof {
                assert(!tx_wf(txs@[i as int]));
            }
            return false;
        }
        i = i + 1;
    }
    true
}

impl Transaction {
    /// A fresh, unsigned transaction with the given fields.
    pub fn new(id: u32, sender: Vec<u8>, receiver: Vec<u8>, amount: u64) -> (r: Self)
        ensures
            r.id == id,
            r.sender@ == sender@,
            r.receiver@ == receiver@,
            r.amount == amount,
            r.signature is None,
    {
        Transaction { id, sender, receiver, amount, signature: None }
    }

    /// Attaches (or replaces) the signature.
    pub fn sign(&mut self, signature: Vec<u8>)
        ensures
            final(self).id == old(self).id,
            final(self).sender@ == old(self).sender@,
            final(self).receiver@ == old(self).receiver@,
            final(self).amount == old(self).amount,
            final(self).signature matches Some(s) && s@ == signature@,
    {
        self.signature = Some(signature);
    }

    /// Whether this transaction would validate: it is signed and every
    /// byte field is free of the zero separator.
    pub open spec fn validates(&self) -> bool {
        &&& self.signature is Some
        &&& no_zero_byte(self.sender@)
        &&& no_zero_byte(self.receiver@)
        &&& (self.signature matches Some(s) && no_zero_byte(s@))
    }

    /// Admits the transaction to the core. Succeeds exactly when the
    /// transaction is signed and no byte field contains the zero
    /// separator; the validated copy carries the same fields.
    pub fn validate(&self) -> (r: Result<ValidatedTransaction, ChainError>)
        ensures
            r matches Ok(v) ==> {
                &&& self.validates()
                &&& v.id == self.id
                &&& v.sender@ == self.sender@
                &&& v.receiver@ == self.receiver@
                &&& v.amount == self.amount
                &&& (self.signature matches Some(s) && v.signature@ == s@)
                &&& tx_wf(v)
            },
            r matches Err(e) ==> e == ChainError::InvalidArgument && !self.validates(),
    {
        match &self.signature {
            None => Err(ChainError::InvalidArgument),
            Some(sig) => {
                if has_zero_byte(&self.sender) || has_zero_byte(&self.receiver)
                    || has_zero_byte(sig) {
                    return Err(ChainError::InvalidArgument);
                }
                let mut sender: Vec<u8> = Vec::new();
                push_all(&mut sender, &self.sender);
                let mut receiver: Vec<u8> = Vec::new();
                push_all(&mut receiver, &self.receiver);
                let mut signature: Vec<u8> = Vec::new();
                push_all(&mut signature, sig);
                Ok(ValidatedTransaction {
                    id: self.id,
                    sender,
                    receiver,
                    amount: self.amount,
                    signature,
                })
            },
        }
    }
}

impl ValidatedTransaction {
    /// The canonical byte encoding of this transaction, rejected when a
    /// byte field holds the zero separator (a hidden separator is a
    /// hash-collision risk).
    pub fn to_bytes(&self) -> (r: Result<Vec<u8>, ChainError>)
        ensures
            r matches Ok(b) ==> tx_wf(*self) && b@ == tx_bytes(*self),
            r matches Err(e) ==> e == ChainError::InvalidArgument && !tx_wf(*self),
    {
        if has_zero_byte(&self.sender) || has_zero_byte(&self.receiver)
            || has_zero_byte(&self.signature) {
            return Err(ChainError::InvalidArgument);
        }
        let mut bytes = u32_to_le_bytes(self.id);
        push_all(&mut bytes, &self.sender);
        bytes.push(0u8);
        push_all(&mut bytes, &self.receiver);
        bytes.push(0u8);
        let amount_bytes = u64_to_le_bytes(self.amount);
        push_all(&mut bytes, &amount_bytes);
        push_all(&mut bytes, &self.signature);
        proof {
            assert(bytes@ =~= tx_bytes(*self));
        }
        Ok(bytes)
    }
}

} // verus!
