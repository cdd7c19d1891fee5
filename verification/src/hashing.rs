use vstd::prelude::*;

verus! {

/// The digest of a byte string under the one fixed 256-bit hash the
/// whole library uses (BLAKE3). The digest is a function of the input
/// bytes alone; nothing further is assumed of it.
pub uninterp spec fn blake3_of(data: Seq<u8>) -> Seq<u8>;

/// The hash engine used uniformly for genesis seeding, chain-entry
/// hashing, transaction canonicalization, and Merkle node hashing.
pub struct Blake3Hasher;

impl Blake3Hasher {
    /// Relies on blake3::hash: a 32-byte digest determined by the input
    /// bytes alone.
    #[verifier::external_body]
    pub fn hash(data: &[u8]) -> (r: Vec<u8>)
        ensures
            r@ == blake3_of(data@),
            r@.len() == 32,
    {
        blake3::hash(data).as_bytes().to_vec()
    }
}

/// Appends every byte of `src` to `dst`.
pub fn push_all(dst: &mut Vec<u8>, src: &Vec<u8>)
    ensures
        final(dst)@ == old(dst)@ + src@,
{
    let n = src.len();
    let mut i: usize = 0;
    while i < n
        invariant
            n == src@.len(),
            0 <= i <= n,
            dst@ == old(dst)@ + src@.take(i as int),
        decreases n - i,
    {
        dst.push(src[i]);
        proof {
            assert(src@.take(i + 1) =~= src@.take(i as int).push(src@[i as int]));
        }
        i = i + 1;
    }
    proof {
        assert(src@.take(n as int) =~= src@);
    }
}

/// A fresh byte vector with the same contents as `v`.
pub fn copy_bytes(v: &Vec<u8>) -> (r: Vec<u8>)
    ensures
        r@ == v@,
{
    let mut r: Vec<u8> = Vec::new();
    push_all(&mut r, v);
    proof {
        assert(r@ =~= v@);
    }
    r
}

/// Byte-for-byte equality of two byte vectors.
pub fn bytes_eq(a: &Vec<u8>, b: &Vec<u8>) -> (r: bool)
    ensures
        r == (a@ == b@),
{
    if a.len() != b.len() {
        assert(a@.len() != b@.len());
        return false;
    }
    let n = a.len();
    let mut i: usize = 0;
    while i < n
        invariant
            n == a@.len(),
            n == b@.len(),
            0 <= i <= n,
            forall|j: int| 0 <= j < i ==> a@[j] == b@[j],
        decreases n - i,
    {
        if a[i] != b[i] {
            return false;
        }
        i = i + 1;
    }
    assert(a@ =~= b@);
    true
}

} // verus!
