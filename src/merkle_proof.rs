//! Sparse Merkle proofs and their verification against a trusted root hash.
use vstd::prelude::*;
use crate::account::{account_digest, AccountStateBlob};
use crate::bitmap::{canonical_bitmap, decode_bits, SparseMerkleBitmap};
use crate::hash_value::{bit_at, share_prefix, HashValue, HASH_LENGTH_IN_BITS};
use crate::hasher::{domain_digest, placeholder_bytes, placeholder_hash, HashDomain};

verus! {

/// The digest of an internal node whose children have digests `left` and `right`.
pub open spec fn internal_digest(left: Seq<u8>, right: Seq<u8>) -> Seq<u8> {
    domain_digest(HashDomain::InternalNode, left + right)
}

/// The digest of a leaf holding `key` and a value whose digest is `value_hash`.
pub open spec fn leaf_digest(key: Seq<u8>, value_hash: Seq<u8>) -> Seq<u8> {
    domain_digest(HashDomain::LeafNode, key + value_hash)
}

/// The root reached from the digest `current` of the subtree at the end of the path: the
/// sibling nearest the leaf is combined first, and sibling `j` stands on the left when bit `j`
/// of `key` is set and on the right otherwise.
pub open spec fn fold_root(key: Seq<u8>, current: Seq<u8>, siblings: Seq<Seq<u8>>) -> Seq<u8>
    decreases siblings.len(),
{
    if siblings.len() == 0 {
        current
    } else {
        let j = siblings.len() - 1;
        let next = if bit_at(key, j) {
            internal_digest(siblings[j], current)
        } else {
            internal_digest(current, siblings[j])
        };
        fold_root(key, next, siblings.subrange(0, j))
    }
}

/// The digest that the walk to the root starts from: the leaf's, or the placeholder.
pub open spec fn start_digest(leaf: Option<(Seq<u8>, Seq<u8>)>) -> Seq<u8> {
    match leaf {
        Some((key, value_hash)) => leaf_digest(key, value_hash),
        None => placeholder_bytes(),
    }
}

/// An internal node of the tree, made only to be hashed.
pub struct MerkleTreeInternalNode {
    left_child: HashValue,
    right_child: HashValue,
}

impl MerkleTreeInternalNode {
    /// The node with children `left_child` and `right_child`.
    pub fn new(left_child: HashValue, right_child: HashValue) -> (r: Self)
        ensures
            r.left_child() == left_child@,
            r.right_child() == right_child@,
    {
        MerkleTreeInternalNode { left_child, right_child }
    }

    /// The digest of the left child.
    pub closed spec fn left_child(&self) -> Seq<u8> {
        self.left_child@
    }

    /// The digest of the right child.
    pub closed spec fn right_child(&self) -> Seq<u8> {
        self.right_child@
    }

    /// The digest of the node: both children, left first, hashed in the internal-node domain.
    pub fn hash(&self) -> (r: HashValue)
        ensures
            r@ == internal_digest(self.left_child(), self.right_child()),
    {
        let mut data: Vec<u8> = Vec::new();
        self.left_child.append_to(&mut data);
        self.right_child.append_to(&mut data);
        HashDomain::InternalNode.hash(data.as_slice())
    }
}

/// A leaf of the tree, made only to be hashed.
pub struct SparseMerkleLeafNode {
    key: HashValue,
    value_hash: HashValue,
}

impl SparseMerkleLeafNode {
    /// The leaf holding `key` and a value whose digest is `value_hash`.
    pub fn new(key: HashValue, value_hash: HashValue) -> (r: Self)
        ensures
            r.key() == key@,
            r.value_hash() == value_hash@,
    {
        SparseMerkleLeafNode { key, value_hash }
    }

    /// The key of the leaf.
    pub closed spec fn key(&self) -> Seq<u8> {
        self.key@
    }

    /// The digest of the leaf's value.
    pub closed spec fn value_hash(&self) -> Seq<u8> {
        self.value_hash@
    }

    /// The digest of the leaf: key then value digest, hashed in the leaf domain.
    pub fn hash(&self) -> (r: HashValue)
        ensures
            r@ == leaf_digest(self.key(), self.value_hash()),
    {
        let mut data: Vec<u8> = Vec::new();
        self.key.append_to(&mut data);
        self.value_hash.append_to(&mut data);
        HashDomain::LeafNode.hash(data.as_slice())
    }
}

/// A proof that authenticates, against a trusted root hash, either an element of a Sparse
/// Merkle Tree or the absence of a key from it.
#[derive(Clone, Debug, PartialEq, Eq)]
pub struct SparseMerkleProof {
    /// The only leaf in the subtree that the path leads to, as its key and the digest of its
    /// value; `None` when that subtree is empty.
    leaf: Option<(HashValue, HashValue)>,
    /// All siblings on the path, default ones included, those near the root first.
    siblings: Vec<HashValue>,
}

/// A sibling list is canonical when its last entry, if any, is not the placeholder: a leaf
/// next to an empty subtree would have been moved up the tree.
pub open spec fn canonical_siblings(siblings: Seq<Seq<u8>>) -> bool {
    siblings.len() > 0 ==> siblings.last() != placeholder_bytes()
}

/// The digests of a sequence of hash values.
pub open spec fn digests(hashes: Seq<HashValue>) -> Seq<Seq<u8>> {
    hashes.map_values(|h: HashValue| h@)
}

/// The digests of an optional leaf.
pub open spec fn leaf_digests(leaf: Option<(HashValue, HashValue)>) -> Option<(Seq<u8>, Seq<u8>)> {
    match leaf {
        Some((key, value_hash)) => Some((key@, value_hash@)),
        None => None,
    }
}

impl SparseMerkleProof {
    /// The leaf of the proof, as digests.
    pub closed spec fn leaf_view(&self) -> Option<(Seq<u8>, Seq<u8>)> {
        leaf_digests(self.leaf)
    }

    /// The siblings of the proof, as digests, those near the root first.
    pub closed spec fn siblings_view(&self) -> Seq<Seq<u8>> {
        digests(self.siblings@)
    }

    /// The proof's sibling list is canonical.
    pub open spec fn wf(&self) -> bool {
        canonical_siblings(self.siblings_view())
    }

    /// The proof made of `leaf` and `siblings`. Trusted code builds proofs, so a trailing
    /// placeholder sibling is ruled out by the precondition.
    pub fn new(leaf: Option<(HashValue, HashValue)>, siblings: Vec<HashValue>) -> (r: Self)
        requires
            canonical_siblings(digests(siblings@)),
        ensures
            r.leaf_view() == leaf_digests(leaf),
            r.siblings_view() == digests(siblings@),
            r.wf(),
    {
        SparseMerkleProof { leaf, siblings }
    }

    /// The leaf in this proof.
    pub fn leaf(&self) -> (r: Option<(HashValue, HashValue)>)
        ensures
            leaf_digests(r) == self.leaf_view(),
    {
        self.leaf
    }

    /// The siblings in this proof, those near the root first.
    pub fn siblings(&self) -> (r: &[HashValue])
        ensures
            digests(r@) == self.siblings_view(),
    {
        self.siblings.as_slice()
    }
}

/// The number of set bits in `bits`.
pub open spec fn count_set(bits: Seq<bool>) -> nat
    decreases bits.len(),
{
    if bits.len() == 0 {
        0
    } else {
        count_set(bits.drop_last()) + if bits.last() {
            1nat
        } else {
            0nat
        }
    }
}

/// The full sibling list of a compressed proof: one entry per bit, the next of `hashes` for a
/// set bit and the placeholder for a clear one.
pub open spec fn expand_siblings(bits: Seq<bool>, hashes: Seq<Seq<u8>>) -> Seq<Seq<u8>>
    decreases bits.len(),
{
    if bits.len() == 0 {
        Seq::empty()
    } else if bits.last() {
        expand_siblings(bits.drop_last(), hashes.drop_last()).push(hashes.last())
    } else {
        expand_siblings(bits.drop_last(), hashes).push(placeholder_bytes())
    }
}

proof fn lemma_count_set_prefix(bits: Seq<bool>, i: int)
    requires
        0 <= i <= bits.len(),
    ensures
        count_set(bits.subrange(0, i)) <= count_set(bits),
    decreases bits.len() - i,
{
    if i < bits.len() {
        lemma_count_set_prefix(bits, i + 1);
        assert(bits.subrange(0, i + 1).drop_last() =~= bits.subrange(0, i));
    } else {
        assert(bits.subrange(0, i) =~= bits);
    }
}

impl SparseMerkleProof {
    /// The proof that a compressed proof stands for: `bitmap` marks which siblings are not
    /// default, and `non_default_siblings` gives those, nearest the root first. `None` when the
    /// number of set bits is not the number of siblings given, or when the last sibling given
    /// is the placeholder.
    pub fn from_compressed(
        leaf: Option<(HashValue, HashValue)>,
        bitmap: &SparseMerkleBitmap,
        non_default_siblings: &[HashValue],
    ) -> (r: Option<SparseMerkleProof>)
        requires
            canonical_bitmap(bitmap@),
            bitmap@.len() <= usize::MAX / 8,
        ensures
            r is Some <==> count_set(decode_bits(bitmap@)) == non_default_siblings@.len()
                && canonical_siblings(
                expand_siblings(decode_bits(bitmap@), digests(non_default_siblings@)),
            ),
            r matches Some(p) ==> p.leaf_view() == leaf_digests(leaf) && p.siblings_view()
                == expand_siblings(decode_bits(bitmap@), digests(non_default_siblings@)),
    {
        let bits = bitmap.to_bits();
        let ghost hs = digests(non_default_siblings@);
        let mut siblings: Vec<HashValue> = Vec::new();
        let mut j: usize = 0;
        let mut i: usize = 0;
        while i < bits.len()
            invariant
                0 <= i <= bits@.len(),
                bits@ == decode_bits(bitmap@),
                j <= non_default_siblings@.len(),
                hs == digests(non_default_siblings@),
                j == count_set(bits@.subrange(0, i as int)),
                digests(siblings@) == expand_siblings(
                    bits@.subrange(0, i as int),
                    hs.subrange(0, j as int),
                ),
            decreases bits@.len() - i,
        {
            let ghost prev = siblings@;
            proof {
                assert(bits@.subrange(0, i + 1).drop_last() =~= bits@.subrange(0, i as int));
            }
            if bits[i] {
                if j >= non_default_siblings.len() {
                    proof {
                        assert(bits@.subrange(0, i + 1).last() == bits@[i as int]);
                        assert(count_set(bits@.subrange(0, i + 1)) == j + 1);
                        lemma_count_set_prefix(bits@, i + 1);
                    }
                    return None;
                }
                siblings.push(non_default_siblings[j]);
                proof {
                    assert(hs.subrange(0, j + 1).drop_last() =~= hs.subrange(0, j as int));
                    assert(digests(siblings@) =~= digests(prev).push(hs[j as int]));
                }
                j = j + 1;
            } else {
                siblings.push(placeholder_hash());
                proof {
                    assert(digests(siblings@) =~= digests(prev).push(placeholder_bytes()));
                }
            }
            i = i + 1;
        }
        proof {
            assert(bits@.subrange(0, i as int) =~= bits@);
        }
        if j != non_default_siblings.len() {
            return None;
        }
        proof {
            assert(hs.subrange(0, j as int) =~= hs);
        }
        let n = siblings.len();
        if n > 0 && siblings[n - 1] == placeholder_hash() {
            return None;
        }
        Some(SparseMerkleProof::new(leaf, siblings))
    }
}

/// Why a proof was not accepted, with the values that disagreed.
#[derive(Clone, Debug, PartialEq, Eq)]
pub enum VerificationError {
    /// The proof has more siblings than the tree has levels.
    TooManySiblings { num_siblings: usize },
    /// The key of the proof's leaf is not the key being checked.
    KeyMismatch { proof_key: HashValue, expected_key: HashValue },
    /// The value digest of the proof's leaf is not the digest of the value being checked.
    ValueMismatch { proof_value_hash: HashValue, expected_value_hash: HashValue },
    /// A value was claimed present, but the proof shows an empty subtree.
    ExpectedInclusionFoundNonInclusion,
    /// The key claimed absent is the key of the proof's leaf.
    NonInclusionKeyExists,
    /// The key claimed absent would not fall into the subtree of the proof's leaf.
    InvalidNonInclusionProof,
    /// The root rebuilt from the proof is not the trusted root.
    RootMismatch { actual_root_hash: HashValue, expected_root_hash: HashValue },
}

/// A verification failure, with digests in place of hash values.
pub enum VerificationFailure {
    TooManySiblings { num_siblings: int },
    KeyMismatch { proof_key: Seq<u8>, expected_key: Seq<u8> },
    ValueMismatch { proof_value_hash: Seq<u8>, expected_value_hash: Seq<u8> },
    ExpectedInclusionFoundNonInclusion,
    NonInclusionKeyExists,
    InvalidNonInclusionProof,
    RootMismatch { actual_root_hash: Seq<u8>, expected_root_hash: Seq<u8> },
}

impl View for VerificationError {
    type V = VerificationFailure;

    open spec fn view(&self) -> VerificationFailure {
        match self {
            VerificationError::TooManySiblings { num_siblings } => {
                VerificationFailure::TooManySiblings { num_siblings: *num_siblings as int }
            },
            VerificationError::KeyMismatch { proof_key, expected_key } => {
                VerificationFailure::KeyMismatch {
                    proof_key: proof_key@,
                    expected_key: expected_key@,
                }
            },
            VerificationError::ValueMismatch { proof_value_hash, expected_value_hash } => {
                VerificationFailure::ValueMismatch {
                    proof_value_hash: proof_value_hash@,
                    expected_value_hash: expected_value_hash@,
                }
            },
            VerificationError::ExpectedInclusionFoundNonInclusion => {
                VerificationFailure::ExpectedInclusionFoundNonInclusion
            },
            VerificationError::NonInclusionKeyExists => VerificationFailure::NonInclusionKeyExists,
            VerificationError::InvalidNonInclusionProof => {
                VerificationFailure::InvalidNonInclusionProof
            },
            VerificationError::RootMismatch { actual_root_hash, expected_root_hash } => {
                VerificationFailure::RootMismatch {
                    actual_root_hash: actual_root_hash@,
                    expected_root_hash: expected_root_hash@,
                }
            },
        }
    }
}

/// A verification result with digests in place of hash values.
pub open spec fn result_view(r: Result<(), VerificationError>) -> Result<(), VerificationFailure> {
    match r {
        Ok(()) => Ok(()),
        Err(e) => Err(e@),
    }
}

/// The digest of the value being checked, if one is claimed present.
pub open spec fn blob_digest(blob: Option<AccountStateBlob>) -> Option<Seq<u8>> {
    match blob {
        Some(b) => Some(account_digest(b@)),
        None => None,
    }
}

/// The last step of a verification: the root rebuilt from the proof must be `root`.
pub open spec fn root_check(
    root: Seq<u8>,
    key: Seq<u8>,
    leaf: Option<(Seq<u8>, Seq<u8>)>,
    siblings: Seq<Seq<u8>>,
) -> Result<(), VerificationFailure> {
    let actual = fold_root(key, start_digest(leaf), siblings);
    if actual == root {
        Ok(())
    } else {
        Err(VerificationFailure::RootMismatch { actual_root_hash: actual, expected_root_hash: root })
    }
}

/// The outcome of checking that `key` holds a value with digest `value_hash` (or, for `None`,
/// that `key` is absent) in the tree with root `root`, given a proof with `leaf` and `siblings`.
pub open spec fn verification_outcome(
    root: Seq<u8>,
    key: Seq<u8>,
    value_hash: Option<Seq<u8>>,
    leaf: Option<(Seq<u8>, Seq<u8>)>,
    siblings: Seq<Seq<u8>>,
) -> Result<(), VerificationFailure> {
    if siblings.len() > 256 {
        Err(VerificationFailure::TooManySiblings { num_siblings: siblings.len() as int })
    } else {
        match (value_hash, leaf) {
            (Some(v), Some((proof_key, proof_value_hash))) => {
                if key != proof_key {
                    Err(VerificationFailure::KeyMismatch { proof_key, expected_key: key })
                } else if v != proof_value_hash {
                    Err(
                        VerificationFailure::ValueMismatch {
                            proof_value_hash,
                            expected_value_hash: v,
                        },
                    )
                } else {
                    root_check(root, key, leaf, siblings)
                }
            },
            (Some(_), None) => Err(VerificationFailure::ExpectedInclusionFoundNonInclusion),
            (None, Some((proof_key, _))) => {
                if key == proof_key {
                    Err(VerificationFailure::NonInclusionKeyExists)
                } else if !share_prefix(key, proof_key, siblings.len() as int) {
                    Err(VerificationFailure::InvalidNonInclusionProof)
                } else {
                    root_check(root, key, leaf, siblings)
                }
            },
            (None, None) => root_check(root, key, leaf, siblings),
        }
    }
}

/// If `element_blob` is present, checks that the tree with root `expected_root_hash` holds
/// `element_blob` under `element_key`; otherwise checks that it does not hold `element_key`.
pub fn verify_sparse_merkle_element(
    expected_root_hash: HashValue,
    element_key: HashValue,
    element_blob: &Option<AccountStateBlob>,
    sparse_merkle_proof: &SparseMerkleProof,
) -> (r: Result<(), VerificationError>)
    ensures
        result_view(r) == verification_outcome(
            expected_root_hash@,
            element_key@,
            blob_digest(*element_blob),
            sparse_merkle_proof.leaf_view(),
            sparse_merkle_proof.siblings_view(),
        ),
{
    let siblings = sparse_merkle_proof.siblings();
    let n = siblings.len();
    let ghost sv = digests(siblings@);
    if n > HASH_LENGTH_IN_BITS {
        return Err(VerificationError::TooManySiblings { num_siblings: n });
    }
    let leaf = sparse_merkle_proof.leaf();
    match (element_blob, leaf) {
        (Some(blob), Some((proof_key, proof_value_hash))) => {
            if !(element_key == proof_key) {
                return Err(
                    VerificationError::KeyMismatch { proof_key, expected_key: element_key },
                );
            }
            let hash = blob.hash();
            if !(hash == proof_value_hash) {
                return Err(
                    VerificationError::ValueMismatch {
                        proof_value_hash,
                        expected_value_hash: hash,
                    },
                );
            }
        },
        (Some(_), None) => {
            return Err(VerificationError::ExpectedInclusionFoundNonInclusion);
        },
        (None, Some((proof_key, _))) => {
            if element_key == proof_key {
                return Err(VerificationError::NonInclusionKeyExists);
            }
            let common = element_key.common_prefix_bits_len(&proof_key);
            if common < n {
                return Err(VerificationError::InvalidNonInclusionProof);
            }
            proof {
                assert(share_prefix(element_key@, proof_key@, n as int));
            }
        },
        (None, None) => {},
    }
    let mut current = match leaf {
        Some((key, value_hash)) => SparseMerkleLeafNode::new(key, value_hash).hash(),
        None => placeholder_hash(),
    };
    let ghost start = current@;
    assert(sv.subrange(0, n as int) =~= sv);
    let mut i: usize = n;
    while i > 0
        invariant
            0 <= i <= n,
            n <= 256,
            n == siblings@.len(),
            sv == digests(siblings@),
            fold_root(element_key@, current@, sv.subrange(0, i as int)) == fold_root(
                element_key@,
                start,
                sv,
            ),
        decreases i,
    {
        let sibling = siblings[i - 1];
        let ghost before = sv.subrange(0, i as int);
        current =
            if element_key.bit(i - 1) {
                MerkleTreeInternalNode::new(sibling, current).hash()
            } else {
                MerkleTreeInternalNode::new(current, sibling).hash()
            };
        i = i - 1;
        proof {
            assert(before.subrange(0, i as int) =~= sv.subrange(0, i as int));
        }
    }
    if current == expected_root_hash {
        Ok(())
    } else {
        Err(
            VerificationError::RootMismatch {
                actual_root_hash: current,
                expected_root_hash,
            },
        )
    }
}

/// The root rebuilt along a path reads only the first `siblings.len()` bits of the key, so two
/// keys that share that many leading bits rebuild the same root.
pub proof fn lemma_fold_root_prefix(
    key1: Seq<u8>,
    key2: Seq<u8>,
    current: Seq<u8>,
    siblings: Seq<Seq<u8>>,
)
    requires
        share_prefix(key1, key2, siblings.len() as int),
    ensures
        fold_root(key1, current, siblings) == fold_root(key2, current, siblings),
    decreases siblings.len(),
{
    if siblings.len() > 0 {
        let j = siblings.len() - 1;
        assert(bit_at(key1, j) == bit_at(key2, j));
        let next = if bit_at(key1, j) {
            internal_digest(siblings[j], current)
        } else {
            internal_digest(current, siblings[j])
        };
        lemma_fold_root_prefix(key1, key2, next, siblings.subrange(0, j));
    }
}

/// Verification is a function of its inputs: two checks of the same root, key, value and proof
/// have the same outcome.
pub proof fn lemma_verification_deterministic(
    r1: Result<(), VerificationError>,
    r2: Result<(), VerificationError>,
    root: Seq<u8>,
    key: Seq<u8>,
    value_hash: Option<Seq<u8>>,
    leaf: Option<(Seq<u8>, Seq<u8>)>,
    siblings: Seq<Seq<u8>>,
)
    requires
        result_view(r1) == verification_outcome(root, key, value_hash, leaf, siblings),
        result_view(r2) == verification_outcome(root, key, value_hash, leaf, siblings),
    ensures
        result_view(r1) == result_view(r2),
{
}

/// A proof whose leaf holds `key` and the digest `value_hash` of the value, and whose siblings
/// lead from that leaf to `root`, proves that value present under `key`.
pub proof fn lemma_valid_inclusion(
    root: Seq<u8>,
    key: Seq<u8>,
    value_hash: Seq<u8>,
    siblings: Seq<Seq<u8>>,
)
    requires
        siblings.len() <= 256,
        root == fold_root(key, leaf_digest(key, value_hash), siblings),
    ensures
        verification_outcome(root, key, Some(value_hash), Some((key, value_hash)), siblings) is Ok,
{
}

/// Against any other root, a valid inclusion proof fails with a root mismatch that reports the
/// rebuilt root and the trusted one.
pub proof fn lemma_tampered_root(
    root: Seq<u8>,
    other_root: Seq<u8>,
    key: Seq<u8>,
    value_hash: Seq<u8>,
    siblings: Seq<Seq<u8>>,
)
    requires
        siblings.len() <= 256,
        root == fold_root(key, leaf_digest(key, value_hash), siblings),
        other_root != root,
    ensures
        verification_outcome(other_root, key, Some(value_hash), Some((key, value_hash)), siblings)
            == Err::<(), VerificationFailure>(
            VerificationFailure::RootMismatch { actual_root_hash: root, expected_root_hash: other_root },
        ),
{
}

/// A key other than the leaf's, claimed present, fails with a key mismatch.
pub proof fn lemma_tampered_key(
    root: Seq<u8>,
    key: Seq<u8>,
    other_key: Seq<u8>,
    value_hash: Seq<u8>,
    siblings: Seq<Seq<u8>>,
)
    requires
        siblings.len() <= 256,
        other_key != key,
    ensures
        verification_outcome(root, other_key, Some(value_hash), Some((key, value_hash)), siblings)
            == Err::<(), VerificationFailure>(
            VerificationFailure::KeyMismatch { proof_key: key, expected_key: other_key },
        ),
{
}

/// A value whose digest differs from the leaf's fails with a value mismatch.
pub proof fn lemma_tampered_value(
    root: Seq<u8>,
    key: Seq<u8>,
    value_hash: Seq<u8>,
    other_value_hash: Seq<u8>,
    siblings: Seq<Seq<u8>>,
)
    requires
        siblings.len() <= 256,
        other_value_hash != value_hash,
    ensures
        verification_outcome(root, key, Some(other_value_hash), Some((key, value_hash)), siblings)
            == Err::<(), VerificationFailure>(
            VerificationFailure::ValueMismatch {
                proof_value_hash: value_hash,
                expected_value_hash: other_value_hash,
            },
        ),
{
}

/// The empty tree has the placeholder as its root: a proof with no leaf and no siblings shows
/// any key absent from it, and a value claimed present under any key is refused.
pub proof fn lemma_empty_tree(key: Seq<u8>, value_hash: Seq<u8>)
    ensures
        verification_outcome(placeholder_bytes(), key, None, None, Seq::empty()) is Ok,
        verification_outcome(placeholder_bytes(), key, Some(value_hash), None, Seq::empty())
            == Err::<(), VerificationFailure>(
            VerificationFailure::ExpectedInclusionFoundNonInclusion,
        ),
{
}

/// Where the siblings lead from the leaf of `leaf_key` to `root`, the same proof shows absent
/// every other key that shares its first `siblings.len()` bits with `leaf_key`, and refuses to
/// show `leaf_key` itself absent.
pub proof fn lemma_non_inclusion_existing_leaf(
    root: Seq<u8>,
    leaf_key: Seq<u8>,
    value_hash: Seq<u8>,
    key: Seq<u8>,
    siblings: Seq<Seq<u8>>,
)
    requires
        siblings.len() <= 256,
        root == fold_root(leaf_key, leaf_digest(leaf_key, value_hash), siblings),
        key != leaf_key,
        share_prefix(key, leaf_key, siblings.len() as int),
    ensures
        verification_outcome(root, key, None, Some((leaf_key, value_hash)), siblings) is Ok,
        verification_outcome(root, leaf_key, None, Some((leaf_key, value_hash)), siblings)
            == Err::<(), VerificationFailure>(VerificationFailure::NonInclusionKeyExists),
{
    lemma_fold_root_prefix(key, leaf_key, leaf_digest(leaf_key, value_hash), siblings);
}

/// A proof with more siblings than the tree has levels fails with that count, whatever else it
/// holds.
pub proof fn lemma_depth_bound(
    root: Seq<u8>,
    key: Seq<u8>,
    value_hash: Option<Seq<u8>>,
    leaf: Option<(Seq<u8>, Seq<u8>)>,
    siblings: Seq<Seq<u8>>,
)
    requires
        siblings.len() > 256,
    ensures
        verification_outcome(root, key, value_hash, leaf, siblings) == Err::<
            (),
            VerificationFailure,
        >(VerificationFailure::TooManySiblings { num_siblings: siblings.len() as int }),
{
}

} // verus!
