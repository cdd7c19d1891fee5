use vstd::prelude::*;
use crate::errors::ChainError;
use crate::hashing::{blake3_of, bytes_eq, copy_bytes, push_all};
use crate::transaction::{batch_is_wf, batch_wf, tx_bytes, tx_wf, ValidatedTransaction};

pub use crate::hashing::Blake3Hasher;

verus! {

/// Lifecycle tag: no leaf data yet.
pub struct Empty;

/// Lifecycle tag: the leaf digests are fixed; their order determines
/// every later proof index.
pub struct HashedLeaves;

/// Lifecycle tag: every internal layer up to the root is computed.
pub struct TreeConstructed;

/// Lifecycle tag: the root's presence has been checked; only now may the
/// root be read and proofs be issued.
pub struct RootVerified;

/// The commitment tree: a binary hash tree over an ordered sequence of
/// leaf digests, kept layer by layer (`layers[0]` is the leaf layer, the
/// last layer holds the root alone), tagged with its lifecycle state.
pub struct MerkleTree<S> {
    pub layers: Vec<Vec<Vec<u8>>>,
    pub state: S,
}

/// An inclusion proof: for each requested leaf position, the sibling
/// digest met at each level on the way to the root (`None` where the
/// node is an unpaired last node, promoted unchanged).
pub struct MerkleProof {
    pub paths: Vec<Vec<Option<Vec<u8>>>>,
}

/// The digests of one stored layer.
pub open spec fn layer_view(l: Vec<Vec<u8>>) -> Seq<Seq<u8>> {
    Seq::new(l@.len(), |i: int| l@[i]@)
}

/// The digests of every stored layer.
pub open spec fn layers_view(ls: Vec<Vec<Vec<u8>>>) -> Seq<Seq<Seq<u8>>> {
    Seq::new(ls@.len(), |k: int| layer_view(ls@[k]))
}

/// The digests an optional stored sibling stands for.
pub open spec fn opt_view(o: Option<Vec<u8>>) -> Option<Seq<u8>> {
    match o {
        Some(v) => Some(v@),
        None => None,
    }
}

/// One stored sibling path as digests.
pub open spec fn path_view(p: Vec<Option<Vec<u8>>>) -> Seq<Option<Seq<u8>>> {
    Seq::new(p@.len(), |i: int| opt_view(p@[i]))
}

/// Every stored sibling path as digests.
pub open spec fn paths_view(ps: Vec<Vec<Option<Vec<u8>>>>) -> Seq<Seq<Option<Seq<u8>>>> {
    Seq::new(ps@.len(), |j: int| path_view(ps@[j]))
}

/// The layer above `l`: each pair is hashed left-then-right, and an
/// unpaired last node is promoted unchanged.
pub open spec fn parent_layer(l: Seq<Seq<u8>>) -> Seq<Seq<u8>> {
    Seq::new(
        (l.len() + 1) / 2,
        |i: int|
            if 2 * i + 1 < l.len() {
                blake3_of(l[2 * i] + l[2 * i + 1])
            } else {
                l[2 * i]
            },
    )
}

/// The root a leaf layer determines: layers are folded upward until one
/// digest is left; a single leaf is its own root.
pub open spec fn root_of(l: Seq<Seq<u8>>) -> Seq<u8>
    decreases l.len(),
{
    if l.len() == 0 {
        Seq::empty()
    } else if l.len() == 1 {
        l[0]
    } else {
        root_of(parent_layer(l))
    }
}

/// Validity of a constructed tree's stored layers: a non-empty leaf
/// layer, each layer above the last derived as the parent of the one
/// below, and a single digest on top.
pub open spec fn layers_wf(ls: Seq<Seq<Seq<u8>>>) -> bool {
    &&& ls.len() > 0
    &&& ls[0].len() > 0
    &&& ls.last().len() == 1
    &&& forall|k: int|
        #![trigger ls[k], ls[k + 1]]
        0 <= k < ls.len() - 1 ==> ls[k].len() >= 2 && ls[k + 1] == parent_layer(ls[k])
}

/// Reconstruction of a root from a sibling path: at each level the
/// running digest is combined with its sibling (on the side the index's
/// parity fixes) or promoted where no sibling is recorded.
pub open spec fn climb(path: Seq<Option<Seq<u8>>>, idx: int, h: Seq<u8>) -> Seq<u8>
    decreases path.len(),
{
    if path.len() == 0 {
        h
    } else {
        let next = match path[0] {
            Some(sib) => if idx % 2 == 0 {
                blake3_of(h + sib)
            } else {
                blake3_of(sib + h)
            },
            None => h,
        };
        climb(path.drop_first(), idx / 2, next)
    }
}

/// Structural fit of a sibling path to a tree of `n` leaves at leaf
/// position `idx`: the path is exactly as long as the tree is high, and
/// records a sibling at a level exactly when the node is paired there.
pub open spec fn proof_path_ok(path: Seq<Option<Seq<u8>>>, idx: int, n: int) -> bool
    decreases n,
{
    if n <= 1 {
        path.len() == 0
    } else {
        &&& path.len() > 0
        &&& (if idx % 2 == 0 && idx + 1 >= n {
            path[0] is None
        } else {
            path[0] is Some
        })
        &&& proof_path_ok(path.drop_first(), idx / 2, (n + 1) / 2)
    }
}

/// The sibling path a leaf layer determines for leaf position `idx`.
pub open spec fn path_of(l: Seq<Seq<u8>>, idx: int) -> Seq<Option<Seq<u8>>>
    decreases l.len(),
{
    if l.len() <= 1 {
        Seq::empty()
    } else {
        let first: Option<Seq<u8>> = if idx % 2 == 0 {
            if idx + 1 < l.len() {
                Some(l[idx + 1])
            } else {
                None
            }
        } else {
            Some(l[idx - 1])
        };
        seq![first] + path_of(parent_layer(l), idx / 2)
    }
}

/// What proof verification re-derives: one path per claimed position,
/// each position inside the claimed leaf count, each path shaped for that
/// count, and each path climbing from its claimed leaf digest exactly to
/// the root.
/// One claimed position of a proof re-derives: the position lies inside
/// the claimed leaf count, its path is shaped for that count, and the
/// path climbs from the claimed leaf digest exactly to the root.
pub open spec fn proof_item_ok(
    paths: Seq<Seq<Option<Seq<u8>>>>,
    root: Seq<u8>,
    idxs: Seq<usize>,
    leaf_hashes: Seq<Seq<u8>>,
    n: int,
    j: int,
) -> bool {
    &&& (idxs[j] as int) < n
    &&& proof_path_ok(paths[j], idxs[j] as int, n)
    &&& climb(paths[j], idxs[j] as int, leaf_hashes[j]) == root
}

pub open spec fn proof_verifies(
    paths: Seq<Seq<Option<Seq<u8>>>>,
    root: Seq<u8>,
    idxs: Seq<usize>,
    leaf_hashes: Seq<Seq<u8>>,
    n: int,
) -> bool {
    &&& paths.len() == idxs.len()
    &&& idxs.len() == leaf_hashes.len()
    &&& forall|j: int|
        0 <= j < paths.len() ==> #[trigger] proof_item_ok(paths, root, idxs, leaf_hashes, n, j)
}

/// Law: the stored layers of a valid tree place the root the leaf layer
/// determines on top.
pub proof fn lemma_layers_root(ls: Seq<Seq<Seq<u8>>>)
    requires
        layers_wf(ls),
    ensures
        ls.last()[0] == root_of(ls[0]),
    decreases ls.len(),
{
    if ls.len() == 1 {
    } else {
        let tail = ls.drop_first();
        assert(tail[0] == ls[1]);
        assert(ls[0].len() >= 2 && ls[1] == parent_layer(ls[0]));
        assert(tail[0] == parent_layer(ls[0]));
        assert(layers_wf(tail)) by {
            assert(tail.last() == ls.last());
            assert forall|k: int|
                0 <= k < tail.len() - 1 implies (#[trigger] tail[k]).len() >= 2 && tail[k + 1]
                == parent_layer(tail[k]) by {
                assert(tail[k] == ls[k + 1]);
                assert(tail[k + 1] == ls[k + 2]);
                assert(0 <= k + 1 < ls.len() - 1);
                assert(ls[k + 1].len() >= 2 && ls[k + 2] == parent_layer(ls[k + 1]));
            }
        }
        lemma_layers_root(tail);
    }
}

/// Law: the sibling path a leaf layer determines for any leaf position
/// fits the tree structurally and climbs from that leaf exactly to the
/// root.
pub proof fn lemma_path_roundtrip(l: Seq<Seq<u8>>, idx: int)
    requires
        0 <= idx < l.len(),
    ensures
        proof_path_ok(path_of(l, idx), idx, l.len() as int),
        climb(path_of(l, idx), idx, l[idx]) == root_of(l),
    decreases l.len(),
{
    if l.len() <= 1 {
    } else {
        let p = parent_layer(l);
        let first: Option<Seq<u8>> = if idx % 2 == 0 {
            if idx + 1 < l.len() {
                Some(l[idx + 1])
            } else {
                None
            }
        } else {
            Some(l[idx - 1])
        };
        let rest = path_of(p, idx / 2);
        assert(path_of(l, idx) == seq![first] + rest);
        assert((seq![first] + rest).drop_first() =~= rest);
        assert((seq![first] + rest)[0] == first);
        assert(0 <= idx / 2 < p.len());
        lemma_path_roundtrip(p, idx / 2);
        let step = match first {
            Some(sib) => if idx % 2 == 0 {
                blake3_of(l[idx] + sib)
            } else {
                blake3_of(sib + l[idx])
            },
            None => l[idx],
        };
        assert(step == p[idx / 2]) by {
            if idx % 2 == 0 {
                assert(2 * (idx / 2) == idx);
            } else {
                assert(2 * (idx / 2) == idx - 1);
                assert(2 * (idx / 2) + 1 == idx);
            }
        }
        assert(climb(path_of(l, idx), idx, l[idx]) == climb(rest, idx / 2, p[idx / 2]));
        assert(proof_path_ok(rest, idx / 2, p.len() as int));
        assert(p.len() as int == (l.len() as int + 1) / 2);
    }
}

/// Law: the proof generated for any valid set of leaf positions of a
/// leaf layer verifies against that layer's root — the Merkle round
/// trip.
pub proof fn lemma_generated_proof_verifies(
    l: Seq<Seq<u8>>,
    idxs: Seq<usize>,
    paths: Seq<Seq<Option<Seq<u8>>>>,
    leaf_hashes: Seq<Seq<u8>>,
)
    requires
        l.len() > 0,
        paths.len() == idxs.len(),
        leaf_hashes.len() == idxs.len(),
        forall|j: int| 0 <= j < idxs.len() ==> (idxs[j] as int) < l.len(),
        forall|j: int| 0 <= j < idxs.len() ==> #[trigger] paths[j] == path_of(l, idxs[j] as int),
        forall|j: int| 0 <= j < idxs.len() ==> #[trigger] leaf_hashes[j] == l[idxs[j] as int],
    ensures
        proof_verifies(paths, root_of(l), idxs, leaf_hashes, l.len() as int),
{
    assert forall|j: int| 0 <= j < paths.len() implies #[trigger] proof_item_ok(
        paths,
        root_of(l),
        idxs,
        leaf_hashes,
        l.len() as int,
        j,
    ) by {
        lemma_path_roundtrip(l, idxs[j] as int);
    }
}

/// The digest of two digests concatenated left-then-right.
fn hash_pair(a: &Vec<u8>, b: &Vec<u8>) -> (r: Vec<u8>)
    ensures
        r@ == blake3_of(a@ + b@),
        r@.len() == 32,
{
    let mut buf: Vec<u8> = Vec::new();
    push_all(&mut buf, a);
    push_all(&mut buf, b);
    proof {
        assert(buf@ =~= a@ + b@);
    }
    Blake3Hasher::hash(buf.as_slice())
}

/// A fresh copy of a layer of digests.
fn copy_digests(v: &Vec<Vec<u8>>) -> (r: Vec<Vec<u8>>)
    ensures
        layer_view(r) == layer_view(*v),
{
    let n = v.len();
    let mut r: Vec<Vec<u8>> = Vec::new();
    let mut i: usize = 0;
    while i < n
        invariant
            n == v@.len(),
            0 <= i <= n,
            r@.len() == i,
            forall|t: int| 0 <= t < i ==> #[trigger] r@[t]@ == v@[t]@,
        decreases n - i,
    {
        r.push(copy_bytes(&v[i]));
        i = i + 1;
    }
    proof {
        assert(layer_view(r) =~= layer_view(*v));
    }
    r
}

/// The stored layer above `l`, computed pair by pair.
fn parent_of(l: &Vec<Vec<u8>>) -> (r: Vec<Vec<u8>>)
    requires
        l@.len() >= 2,
    ensures
        layer_view(r) == parent_layer(layer_view(*l)),
{
    let n = l.len();
    let half = n / 2 + n % 2;
    proof {
        assert(half == (n + 1) / 2);
    }
    let mut r: Vec<Vec<u8>> = Vec::new();
    let mut j: usize = 0;
    while j < half
        invariant
            n == l@.len(),
            n >= 2,
            half == (n + 1) / 2,
            0 <= j <= half,
            r@.len() == j,
            forall|t: int| 0 <= t < j ==> #[trigger] r@[t]@ == parent_layer(layer_view(*l))[t],
        decreases half - j,
    {
        let i = 2 * j;
        let node = if i + 1 < n {
            hash_pair(&l[i], &l[i + 1])
        } else {
            copy_bytes(&l[i])
        };
        r.push(node);
        proof {
            let lv = layer_view(*l);
            assert(lv[2 * j] == l@[2 * j]@);
            if i + 1 < n {
                assert(lv[2 * j + 1] == l@[2 * j + 1]@);
            }
        }
        j = j + 1;
    }
    proof {
        assert(layer_view(r) =~= parent_layer(layer_view(*l)));
    }
    r
}

/// Builds every layer above a non-empty leaf layer, up to the single
/// root digest.
#[verifier::rlimit(100)]
fn build_layers(leaves: Vec<Vec<u8>>) -> (r: Vec<Vec<Vec<u8>>>)
    requires
        leaves@.len() > 0,
    ensures
        layers_wf(layers_view(r)),
        layers_view(r)[0] == layer_view(leaves),
{
    let ghost l0 = layer_view(leaves);
    let mut width = leaves.len();
    let mut layers: Vec<Vec<Vec<u8>>> = Vec::new();
    layers.push(leaves);
    while width > 1
        invariant
            layers@.len() > 0,
            width > 0,
            width == layers@.last()@.len(),
            layer_view(layers@[0]) == l0,
            l0.len() > 0,
            forall|k: int|
                #![trigger layers@[k], layers@[k + 1]]
                0 <= k < layers@.len() - 1 ==> layer_view(layers@[k]).len() >= 2
                    && layer_view(layers@[k + 1]) == parent_layer(layer_view(layers@[k])),
        decreases width,
    {
        let ghost before = layers@;
        let last = &layers[layers.len() - 1];
        let next = parent_of(last);
        let new_width = next.len();
        proof {
            assert(*last == before.last());
            assert(layer_view(next) == parent_layer(layer_view(before.last())));
        }
        layers.push(next);
        width = new_width;
        proof {
            assert(layers@.len() == before.len() + 1);
            assert forall|k: int|
                0 <= k < layers@.len() - 1 implies layer_view(#[trigger] layers@[k]).len() >= 2
                    && layer_view(layers@[k + 1]) == parent_layer(layer_view(layers@[k])) by {
                if k < before.len() - 1 {
                    assert(layers@[k] == before[k]);
                    assert(layers@[k + 1] == before[k + 1]);
                } else {
                    assert(layers@[k] == before.last());
                    assert(layers@[k + 1] == next);
                }
            }
        }
    }
    proof {
        let lsv = layers_view(layers);
        assert(lsv.len() == layers@.len());
        assert(lsv[0] == layer_view(layers@[0]));
        assert(lsv.last() == layer_view(layers@[layers@.len() - 1]));
        assert(lsv.last().len() == 1);
        assert forall|k: int|
            0 <= k < lsv.len() - 1 implies (#[trigger] lsv[k]).len() >= 2 && lsv[k + 1]
            == parent_layer(lsv[k]) by {
            assert(lsv[k] == layer_view(layers@[k]));
            assert(lsv[k + 1] == layer_view(layers@[k + 1]));
        }
    }
    layers
}

impl<S> MerkleTree<S> {
    /// The leaf layer this tree was built over.
    pub open spec fn leaf_view(&self) -> Seq<Seq<u8>> {
        layers_view(self.layers)[0]
    }

    /// Validity of a constructed tree: its stored layers derive from a
    /// non-empty leaf layer up to a single root digest.
    pub open spec fn tree_wf(&self) -> bool {
        layers_wf(layers_view(self.layers))
    }

    /// The root this tree's leaf layer determines.
    pub open spec fn spec_root(&self) -> Seq<u8> {
        root_of(self.leaf_view())
    }

    /// Whether a root digest is present on top of the stored layers.
    pub open spec fn has_root(&self) -> bool {
        self.layers@.len() > 0 && self.layers@.last()@.len() == 1
    }
}

impl MerkleTree<Empty> {
    /// A tree holding no data yet.
    pub fn new() -> (r: Self)
        ensures
            r.layers@.len() == 0,
    {
        MerkleTree { layers: Vec::new(), state: Empty }
    }

    /// Digests the given byte strings into the fixed, ordered leaf layer.
    /// Rejects an empty input set with `InvalidArgument`: a tree must
    /// have at least one leaf.
    pub fn hash_leaves(self, data: &Vec<Vec<u8>>) -> (r: Result<
        MerkleTree<HashedLeaves>,
        ChainError,
    >)
        ensures
            data@.len() == 0 ==> (r matches Err(e) && e == ChainError::InvalidArgument),
            data@.len() > 0 ==> (r matches Ok(t) && {
                &&& t.layers@.len() == 1
                &&& t.leaf_view().len() == data@.len()
                &&& forall|i: int|
                    0 <= i < data@.len() ==> t.leaf_view()[i] == blake3_of(data@[i]@)
            }),
    {
        if data.len() == 0 {
            return Err(ChainError::InvalidArgument);
        }
        let n = data.len();
        let mut leaves: Vec<Vec<u8>> = Vec::new();
        let mut i: usize = 0;
        while i < n
            invariant
                n == data@.len(),
                0 <= i <= n,
                leaves@.len() == i,
                forall|t: int| 0 <= t < i ==> #[trigger] leaves@[t]@ == blake3_of(data@[t]@),
            decreases n - i,
        {
            leaves.push(Blake3Hasher::hash(data[i].as_slice()));
            i = i + 1;
        }
        let mut layers: Vec<Vec<Vec<u8>>> = Vec::new();
        layers.push(leaves);
        Ok(MerkleTree { layers, state: HashedLeaves })
    }
}

impl MerkleTree<HashedLeaves> {
    /// Validity of a tree with hashed leaves: exactly the non-empty leaf
    /// layer is stored.
    pub open spec fn hashed_wf(&self) -> bool {
        self.layers@.len() == 1 && self.leaf_view().len() > 0
    }

    /// Builds the full tree structure above the leaf layer.
    pub fn construct_tree(self) -> (r: MerkleTree<TreeConstructed>)
        requires
            self.hashed_wf(),
        ensures
            r.tree_wf(),
            r.leaf_view() == self.leaf_view(),
    {
        let mut ls = self.layers;
        match ls.pop() {
            Some(leaves) => {
                proof {
                    assert(layer_view(leaves) == layers_view(self.layers)[0]);
                }
                MerkleTree { layers: build_layers(leaves), state: TreeConstructed }
            },
            None => {
                proof {
                    assert(false);
                }
                MerkleTree { layers: ls, state: TreeConstructed }
            },
        }
    }

    /// A leaf layer made of the canonical digests of a transaction
    /// batch, in batch order. Rejects an empty batch, or one holding a
    /// transaction that does not canonicalize, with `InvalidArgument`.
    pub fn from_transactions(txs: Vec<ValidatedTransaction>) -> (r: Result<Self, ChainError>)
        ensures
            txs@.len() == 0 || !batch_wf(txs@) ==> (r matches Err(e) && e
                == ChainError::InvalidArgument),
            txs@.len() > 0 && batch_wf(txs@) ==> (r matches Ok(t) && {
                &&& t.hashed_wf()
                &&& t.leaf_view().len() == txs@.len()
                &&& forall|i: int|
                    0 <= i < txs@.len() ==> t.leaf_view()[i] == blake3_of(tx_bytes(txs@[i]))
            }),
    {
        let n = txs.len();
        if n == 0 {
            return Err(ChainError::InvalidArgument);
        }
        if !batch_is_wf(&txs) {
            return Err(ChainError::InvalidArgument);
        }
        let mut leaves: Vec<Vec<u8>> = Vec::new();
        let mut i: usize = 0;
        while i < n
            invariant
                batch_wf(txs@),
                n == txs@.len(),
                0 <= i <= n,
                leaves@.len() == i,
                forall|t: int|
                    0 <= t < i ==> #[trigger] leaves@[t]@ == blake3_of(tx_bytes(txs@[t])),
            decreases n - i,
        {
            let t = &txs[i];
            proof {
                assert(tx_wf(txs@[i as int]));
            }
            match t.to_bytes() {
                Ok(b) => {
                    leaves.push(Blake3Hasher::hash(b.as_slice()));
                },
                Err(_) => {
                    proof {
                        assert(false);
                    }
                },
            }
            i = i + 1;
        }
        let mut layers: Vec<Vec<Vec<u8>>> = Vec::new();
        layers.push(leaves);
        Ok(MerkleTree { layers, state: HashedLeaves })
    }
}

impl MerkleTree<TreeConstructed> {
    /// Checks that a root digest can be read off the constructed layers
    /// and, on success, transitions to the verified state. A tree built
    /// by `construct_tree` always passes; a missing root is an
    /// `IntegrityError`.
    pub fn verify_root(self) -> (r: Result<MerkleTree<RootVerified>, ChainError>)
        ensures
            r matches Ok(t) ==> {
                &&& self.has_root()
                &&& t.layers == self.layers
                &&& (self.tree_wf() ==> t.tree_wf() && t.leaf_view() == self.leaf_view())
            },
            r matches Err(e) ==> e == ChainError::IntegrityError && !self.has_root(),
    {
        if self.layers.len() == 0 {
            return Err(ChainError::IntegrityError);
        }
        let top = &self.layers[self.layers.len() - 1];
        if top.len() != 1 {
            return Err(ChainError::IntegrityError);
        }
        Ok(MerkleTree { layers: self.layers, state: RootVerified })
    }

    /// Checks the root exactly as `verify_root` does.
    pub fn verify(self) -> (r: Result<MerkleTree<RootVerified>, ChainError>)
        ensures
            r matches Ok(t) ==> {
                &&& self.has_root()
                &&& t.layers == self.layers
                &&& (self.tree_wf() ==> t.tree_wf() && t.leaf_view() == self.leaf_view())
            },
            r matches Err(e) ==> e == ChainError::IntegrityError && !self.has_root(),
    {
        if self.layers.len() == 0 {
            return Err(ChainError::IntegrityError);
        }
        let top = &self.layers[self.layers.len() - 1];
        if top.len() != 1 {
            return Err(ChainError::IntegrityError);
        }
        Ok(MerkleTree { layers: self.layers, state: RootVerified })
    }

    /// Rebuilds the tree wholesale over the old leaves followed by the
    /// new digests.
    pub fn append_hashes(self, new_hashes: &Vec<Vec<u8>>) -> (r: Result<
        MerkleTree<TreeConstructed>,
        ChainError,
    >)
        requires
            self.tree_wf(),
        ensures
            r matches Ok(t) && {
                &&& t.tree_wf()
                &&& t.leaf_view() == self.leaf_view() + layer_view(*new_hashes)
            },
    {
        let mut leaves = copy_digests(&self.layers[0]);
        let more = copy_digests(new_hashes);
        let n = more.len();
        let ghost base = layer_view(leaves);
        let mut i: usize = 0;
        let mut rest = more;
        while i < n
            invariant
                n == layer_view(*new_hashes).len(),
                0 <= i <= n,
                rest@.len() == n - i,
                forall|t: int|
                    0 <= t < n - i ==> #[trigger] rest@[t]@ == layer_view(*new_hashes)[t + i],
                layer_view(leaves) == base + layer_view(*new_hashes).take(i as int),
            decreases n - i,
        {
            let ghost lv_before = layer_view(leaves);
            let ghost rest_before = rest@;
            let d = rest.remove(0);
            proof {
                assert(d@ == layer_view(*new_hashes)[i as int]);
                assert forall|t: int| 0 <= t < n - i - 1 implies #[trigger] rest@[t]@
                    == layer_view(*new_hashes)[t + i + 1] by {
                    assert(rest@[t] == rest_before[t + 1]);
                }
            }
            leaves.push(d);
            proof {
                assert(layer_view(leaves) =~= lv_before.push(layer_view(*new_hashes)[i as int]));
                assert(layer_view(*new_hashes).take(i + 1) =~= layer_view(*new_hashes).take(
                    i as int,
                ).push(layer_view(*new_hashes)[i as int]));
            }
            i = i + 1;
        }
        proof {
            assert(layer_view(*new_hashes).take(n as int) =~= layer_view(*new_hashes));
        }
        Ok(MerkleTree { layers: build_layers(leaves), state: TreeConstructed })
    }
}

impl MerkleTree<RootVerified> {
    /// The 32-byte root digest; defined only in this state.
    pub fn root(&self) -> (r: Vec<u8>)
        requires
            self.tree_wf(),
        ensures
            r@ == self.spec_root(),
    {
        let top = &self.layers[self.layers.len() - 1];
        let r = copy_bytes(&top[0]);
        proof {
            let ls = layers_view(self.layers);
            lemma_layers_root(ls);
            assert(ls.last()[0] == top@[0]@);
        }
        r
    }

    /// The sibling path for one leaf position, read off the stored
    /// layers.
    #[verifier::rlimit(100)]
    fn single_path(&self, idx: usize) -> (p: Vec<Option<Vec<u8>>>)
        requires
            self.tree_wf(),
            (idx as int) < self.leaf_view().len(),
        ensures
            path_view(p) == path_of(self.leaf_view(), idx as int),
    {
        let height = self.layers.len();
        let mut p: Vec<Option<Vec<u8>>> = Vec::new();
        let mut ci = idx;
        let mut k: usize = 0;
        while k < height - 1
            invariant
                self.tree_wf(),
                height == self.layers@.len(),
                0 <= k <= height - 1,
                (ci as int) < layers_view(self.layers)[k as int].len(),
                path_of(self.leaf_view(), idx as int) =~= path_view(p) + path_of(
                    layers_view(self.layers)[k as int],
                    ci as int,
                ),
            decreases height - 1 - k,
        {
            let ghost lv = layers_view(self.layers)[k as int];
            let layer = &self.layers[k];
            proof {
                let lsv = layers_view(self.layers);
                assert(lsv[k as int] == layer_view(self.layers@[k as int]));
                assert(lsv[k + 1] == layer_view(self.layers@[k + 1]));
                assert(lsv[k as int].len() >= 2 && lsv[k + 1] == parent_layer(lsv[k as int]));
                assert(lv == layer_view(*layer));
            }
            let elem: Option<Vec<u8>> = if ci % 2 == 0 {
                if ci + 1 < layer.len() {
                    Some(copy_bytes(&layer[ci + 1]))
                } else {
                    None
                }
            } else {
                Some(copy_bytes(&layer[ci - 1]))
            };
            let ghost p_before = path_view(p);
            let ghost elem_view = opt_view(elem);
            p.push(elem);
            proof {
                assert(path_view(p) =~= p_before.push(elem_view));
                let rest = path_of(parent_layer(lv), ci as int / 2);
                assert(path_of(lv, ci as int) == seq![elem_view] + rest);
                assert(p_before + (seq![elem_view] + rest) =~= path_view(p) + rest);
                assert(layers_view(self.layers)[k as int + 1] == parent_layer(lv));
                assert((ci as int) / 2 < parent_layer(lv).len());
            }
            ci = ci / 2;
            k = k + 1;
        }
        proof {
            let lv = layers_view(self.layers)[k as int];
            assert(lv == layers_view(self.layers).last());
            assert(lv.len() == 1);
            assert(path_of(lv, ci as int) =~= Seq::<Option<Seq<u8>>>::empty());
            assert(path_view(p) + Seq::<Option<Seq<u8>>>::empty() =~= path_view(p));
        }
        p
    }

    /// An inclusion proof for the given leaf positions: one sibling path
    /// per position, in order.
    pub fn generate_proof(&self, leaf_indices: &Vec<usize>) -> (r: MerkleProof)
        requires
            self.tree_wf(),
            forall|j: int|
                0 <= j < leaf_indices@.len() ==> (leaf_indices@[j] as int)
                    < self.leaf_view().len(),
        ensures
            r.paths@.len() == leaf_indices@.len(),
            forall|j: int|
                0 <= j < leaf_indices@.len() ==> paths_view(r.paths)[j] == path_of(
                    self.leaf_view(),
                    leaf_indices@[j] as int,
                ),
    {
        let n = leaf_indices.len();
        let mut paths: Vec<Vec<Option<Vec<u8>>>> = Vec::new();
        let mut j: usize = 0;
        while j < n
            invariant
                self.tree_wf(),
                n == leaf_indices@.len(),
                forall|t: int|
                    0 <= t < n ==> (leaf_indices@[t] as int) < self.leaf_view().len(),
                0 <= j <= n,
                paths@.len() == j,
                forall|t: int|
                    0 <= t < j ==> path_view(#[trigger] paths@[t]) == path_of(
                        self.leaf_view(),
                        leaf_indices@[t] as int,
                    ),
            decreases n - j,
        {
            let path = self.single_path(leaf_indices[j]);
            paths.push(path);
            j = j + 1;
        }
        MerkleProof { paths }
    }

    /// Returns the tree to the unverified constructed state.
    pub fn into_unverified(self) -> (r: MerkleTree<TreeConstructed>)
        ensures
            r.layers == self.layers,
            self.tree_wf() ==> r.tree_wf() && r.leaf_view() == self.leaf_view(),
    {
        MerkleTree { layers: self.layers, state: TreeConstructed }
    }

    /// Rebuilds the tree wholesale over the old leaves followed by the
    /// new digests, staying in the verified state.
    pub fn append_hashes(self, new_hashes: &Vec<Vec<u8>>) -> (r: Result<
        MerkleTree<RootVerified>,
        ChainError,
    >)
        requires
            self.tree_wf(),
        ensures
            r matches Ok(t) && {
                &&& t.tree_wf()
                &&& t.leaf_view() == self.leaf_view() + layer_view(*new_hashes)
            },
    {
        let unverified = MerkleTree { layers: self.layers, state: TreeConstructed };
        match unverified.append_hashes(new_hashes) {
            Ok(t) => Ok(MerkleTree { layers: t.layers, state: RootVerified }),
            Err(_) => {
                proof {
                    assert(false);
                }
                Err(ChainError::IntegrityError)
            },
        }
    }

    /// Read-only access to the leaf digests.
    pub fn leaves(&self) -> (r: &Vec<Vec<u8>>)
        requires
            self.layers@.len() > 0,
        ensures
            layer_view(*r) == self.leaf_view(),
    {
        &self.layers[0]
    }
}

/// Reconstructs the root from one stored path and compares it, while
/// checking that the path fits a tree of `n` leaves at position `idx`.
fn check_path(path: &Vec<Option<Vec<u8>>>, idx: usize, leaf: &Vec<u8>, n: usize, root: &Vec<u8>) -> (r:
    bool)
    ensures
        r == (proof_path_ok(path_view(*path), idx as int, n as int) && climb(
            path_view(*path),
            idx as int,
            leaf@,
        ) == root@),
{
    let len = path.len();
    let mut cur = copy_bytes(leaf);
    let mut ci = idx;
    let mut cn = n;
    let mut i: usize = 0;
    proof {
        assert(path_view(*path).skip(0) =~= path_view(*path));
    }
    while i < len
        invariant
            len == path@.len(),
            0 <= i <= len,
            (proof_path_ok(path_view(*path), idx as int, n as int) && climb(
                path_view(*path),
                idx as int,
                leaf@,
            ) == root@) == (proof_path_ok(path_view(*path).skip(i as int), ci as int, cn as int)
                && climb(path_view(*path).skip(i as int), ci as int, cur@) == root@),
        decreases len - i,
    {
        let ghost rest = path_view(*path).skip(i as int);
        proof {
            assert(rest.len() == len - i);
            assert(rest[0] == path_view(*path)[i as int]);
            assert(rest.drop_first() =~= path_view(*path).skip(i + 1));
        }
        if cn <= 1 {
            proof {
                assert(!proof_path_ok(rest, ci as int, cn as int));
            }
            return false;
        }
        let paired = !(ci % 2 == 0 && ci + 1 >= cn);
        match &path[i] {
            None => {
                if paired {
                    proof {
                        assert(rest[0] is None);
                        assert(!proof_path_ok(rest, ci as int, cn as int));
                    }
                    return false;
                }
                proof {
                    assert(rest[0] is None);
                }
            },
            Some(sib) => {
                if !paired {
                    proof {
                        assert(rest[0] is Some);
                        assert(!proof_path_ok(rest, ci as int, cn as int));
                    }
                    return false;
                }
                proof {
                    assert(rest[0] matches Some(s) && s == sib@);
                }
                cur = if ci % 2 == 0 {
                    hash_pair(&cur, sib)
                } else {
                    hash_pair(sib, &cur)
                };
            },
        }
        ci = ci / 2;
        cn = cn / 2 + cn % 2;
        proof {
            assert(cn as int == ((2 * (cn as int) - (cn as int % 2) + 1) / 2));
        }
        i = i + 1;
    }
    if cn > 1 {
        proof {
            assert(path_view(*path).skip(len as int).len() == 0);
            assert(!proof_path_ok(path_view(*path).skip(len as int), ci as int, cn as int));
        }
        return false;
    }
    proof {
        assert(path_view(*path).skip(len as int).len() == 0);
    }
    bytes_eq(&cur, root)
}

impl MerkleProof {
    /// Standard Merkle path reconstruction: accepts exactly when each
    /// claimed (position, leaf digest) pair climbs along its recorded
    /// sibling path — shaped for the claimed leaf count — to the given
    /// root.
    pub fn verify(
        &self,
        root: &Vec<u8>,
        leaf_indices: &Vec<usize>,
        leaf_hashes: &Vec<Vec<u8>>,
        total_leaves_count: usize,
    ) -> (r: bool)
        ensures
            r == proof_verifies(
                paths_view(self.paths),
                root@,
                leaf_indices@,
                layer_view(*leaf_hashes),
                total_leaves_count as int,
            ),
    {
        let m = self.paths.len();
        if leaf_indices.len() != m || leaf_hashes.len() != m {
            proof {
                assert(paths_view(self.paths).len() == m);
                assert(layer_view(*leaf_hashes).len() == leaf_hashes@.len());
            }
            return false;
        }
        let mut j: usize = 0;
        while j < m
            invariant
                m == self.paths@.len(),
                m == leaf_indices@.len(),
                m == leaf_hashes@.len(),
                0 <= j <= m,
                forall|t: int|
                    0 <= t < j ==> #[trigger] proof_item_ok(
                        paths_view(self.paths),
                        root@,
                        leaf_indices@,
                        layer_view(*leaf_hashes),
                        total_leaves_count as int,
                        t,
                    ),
            decreases m - j,
        {
            let ghost pv = paths_view(self.paths);
            let ghost lv = layer_view(*leaf_hashes);
            let ghost nn = total_leaves_count as int;
            let idx = leaf_indices[j];
            if idx >= total_leaves_count {
                proof {
                    if proof_verifies(pv, root@, leaf_indices@, lv, nn) {
                        assert(proof_item_ok(pv, root@, leaf_indices@, lv, nn, j as int));
                        assert(false);
                    }
                }
                return false;
            }
            let pj = &self.paths[j];
            let lj = &leaf_hashes[j];
            proof {
                assert(*pj == self.paths@[j as int]);
                assert(pv[j as int] == path_view(self.paths@[j as int]));
                assert(lv[j as int] == leaf_hashes@[j as int]@);
                assert((*lj)@ == leaf_hashes@[j as int]@);
            }
            if !check_path(pj, idx, lj, total_leaves_count, root) {
                proof {
                    if proof_verifies(pv, root@, leaf_indices@, lv, nn) {
                        assert(proof_item_ok(pv, root@, leaf_indices@, lv, nn, j as int));
                        assert(false);
                    }
                }
                return false;
            }
            proof {
                assert(path_view(*pj) == pv[j as int]);
                assert(idx == leaf_indices@[j as int]);
                assert(proof_item_ok(pv, root@, leaf_indices@, lv, nn, j as int));
            }
            j = j + 1;
        }
        proof {
            assert(paths_view(self.paths).len() == m);
            assert(layer_view(*leaf_hashes).len() == m);
        }
        true
    }
}

} // verus!

