use sha3::{Digest, Sha3_256};
use sparse_merkle::{
    placeholder_hash, verify_sparse_merkle_element, AccountStateBlob, HashDomain, HashValue,
    MerkleTreeInternalNode, SparseMerkleBitmap, SparseMerkleLeafNode, SparseMerkleProof,
    VerificationError,
};

fn sha3(parts: &[&[u8]]) -> HashValue {
    let mut hasher = Sha3_256::new();
    for part in parts {
        hasher.update(part);
    }
    let out: [u8; 32] = hasher.finalize().into();
    HashValue::new(out)
}

fn hash_of_byte(b: u8) -> HashValue {
    HashValue::new([b; 32])
}

fn flip_bit(h: HashValue, index: usize) -> HashValue {
    let mut bytes = h.to_vec();
    bytes[index / 8] ^= 1 << (7 - index % 8);
    HashValue::from_slice(&bytes).unwrap()
}

fn root_of(key: HashValue, start: HashValue, siblings: &[HashValue]) -> HashValue {
    let mut current = start;
    for i in (0..siblings.len()).rev() {
        current = if key.bit(i) {
            MerkleTreeInternalNode::new(siblings[i], current).hash()
        } else {
            MerkleTreeInternalNode::new(current, siblings[i]).hash()
        };
    }
    current
}

struct Inclusion {
    root: HashValue,
    key: HashValue,
    blob: AccountStateBlob,
    siblings: Vec<HashValue>,
}

fn inclusion_case() -> Inclusion {
    let key = hash_of_byte(0b1010_0000);
    let blob = AccountStateBlob::from(vec![1u8, 2, 3]);
    let siblings = vec![hash_of_byte(7), placeholder_hash(), hash_of_byte(9)];
    let leaf = SparseMerkleLeafNode::new(key, blob.hash()).hash();
    let root = root_of(key, leaf, &siblings);
    Inclusion { root, key, blob, siblings }
}

fn proof_of(case: &Inclusion) -> SparseMerkleProof {
    SparseMerkleProof::new(Some((case.key, case.blob.hash())), case.siblings.clone())
}

#[test]
fn bits_are_read_most_significant_first() {
    let mut bytes = [0u8; 32];
    bytes[0] = 0b1000_0001;
    bytes[31] = 0b0000_0001;
    let h = HashValue::new(bytes);
    assert!(h.bit(0));
    assert!(!h.bit(1));
    assert!(h.bit(7));
    assert!(!h.bit(8));
    assert!(h.bit(255));
    assert!(!h.bit(254));
}

#[test]
fn common_prefix_counts_leading_equal_bits() {
    let a = hash_of_byte(0);
    assert_eq!(a.common_prefix_bits_len(&a), 256);
    assert_eq!(a.common_prefix_bits_len(&flip_bit(a, 0)), 0);
    assert_eq!(a.common_prefix_bits_len(&flip_bit(a, 13)), 13);
    assert_eq!(a.common_prefix_bits_len(&flip_bit(a, 255)), 255);
}

#[test]
fn from_slice_takes_exactly_32_bytes() {
    assert!(HashValue::from_slice(&[0u8; 31]).is_none());
    assert!(HashValue::from_slice(&[0u8; 33]).is_none());
    let h = HashValue::from_slice(&[5u8; 32]).unwrap();
    assert_eq!(h, hash_of_byte(5));
    assert_eq!(h.to_vec(), vec![5u8; 32]);
}

#[test]
fn placeholder_is_padded_literal() {
    let mut expected = b"SPARSE_MERKLE_PLACEHOLDER_HASH".to_vec();
    expected.extend_from_slice(&[0, 0]);
    assert_eq!(placeholder_hash().to_vec(), expected);
}

#[test]
fn domain_hash_prefixes_tag() {
    let data = [1u8, 2, 3];
    assert_eq!(HashDomain::LeafNode.hash(&data), sha3(&[b"SparseMerkleLeaf", &data]));
    assert_eq!(
        HashDomain::InternalNode.hash(&data),
        sha3(&[b"SparseMerkleInternal", &data])
    );
    assert_eq!(HashDomain::AccountBlob.hash(&data), sha3(&[b"AccountStateBlob", &data]));
    assert_ne!(HashDomain::LeafNode.hash(&data), HashDomain::InternalNode.hash(&data));
}

#[test]
fn empty_input_digest_is_sha3_of_tag() {
    // SHA3-256 of the bare tag, computed independently.
    assert_eq!(HashDomain::AccountBlob.hash(&[]), sha3(&[b"AccountStateBlob"]));
    assert_ne!(HashDomain::AccountBlob.hash(&[]), HashValue::new([0u8; 32]));
}

#[test]
fn node_hashes_cover_both_children() {
    let l = hash_of_byte(1);
    let r = hash_of_byte(2);
    let expected = sha3(&[b"SparseMerkleInternal", &l.to_vec(), &r.to_vec()]);
    assert_eq!(MerkleTreeInternalNode::new(l, r).hash(), expected);
    assert_ne!(MerkleTreeInternalNode::new(r, l).hash(), expected);
    let leaf = sha3(&[b"SparseMerkleLeaf", &l.to_vec(), &r.to_vec()]);
    assert_eq!(SparseMerkleLeafNode::new(l, r).hash(), leaf);
}

#[test]
fn account_blob_hash_and_hex() {
    let blob = AccountStateBlob::from(vec![0x0au8, 0xff, 0x10]);
    assert_eq!(blob.hash(), sha3(&[b"AccountStateBlob", &[0x0a, 0xff, 0x10]]));
    assert_eq!(blob.raw_hex(), "0aff10");
    assert_eq!(blob.as_bytes(), &[0x0a, 0xff, 0x10]);
    assert_eq!(blob.clone().into_bytes(), vec![0x0a, 0xff, 0x10]);
    assert_eq!(blob, AccountStateBlob::from(vec![0x0a, 0xff, 0x10]));
    assert_ne!(blob, AccountStateBlob::from(vec![0x0a, 0xff]));
}

#[test]
fn bitmap_packs_msb_first() {
    let bitmap = SparseMerkleBitmap::from_bits(&[true, false, true]);
    assert_eq!(bitmap.into_bytes(), vec![0b1010_0000]);
    let bits = [false, false, false, false, false, false, false, true, true];
    let bitmap = SparseMerkleBitmap::from_bits(&bits);
    assert_eq!(bitmap.to_bits(), bits.to_vec());
    assert_eq!(bitmap.into_bytes(), vec![0b0000_0001, 0b1000_0000]);
}

#[test]
fn bitmap_drops_trailing_false() {
    let bits = [true, false, true, true, false, false, false, false, false, false, false];
    let bitmap = SparseMerkleBitmap::from_bits(&bits);
    assert_eq!(bitmap.to_bits(), vec![true, false, true, true]);
    assert_eq!(bitmap.into_bytes(), vec![0b1011_0000]);
    let empty = SparseMerkleBitmap::from_bits(&[false, false, false]);
    assert!(empty.to_bits().is_empty());
    assert!(empty.into_bytes().is_empty());
}

#[test]
fn bitmap_round_trip_keeps_bits_up_to_last_true() {
    let bits: Vec<bool> = (0..37).map(|i| i % 3 == 0 || i == 36).collect();
    let bitmap = SparseMerkleBitmap::from_bits(&bits);
    assert_eq!(bitmap.to_bits(), bits);
    assert_ne!(*bitmap.into_bytes().last().unwrap(), 0);
}

#[test]
fn bitmap_iterator_stops_at_last_set_bit() {
    let bitmap = SparseMerkleBitmap::new(vec![0xff, 0b0100_0000]);
    let mut it = bitmap.iter();
    let mut count = 0;
    while let Some(bit) = it.next() {
        assert_eq!(bit, count < 8 || count == 9);
        count += 1;
    }
    assert_eq!(count, 10);
    assert_eq!(it.next(), None);
}

#[test]
fn proof_accessors() {
    let case = inclusion_case();
    let proof = proof_of(&case);
    assert_eq!(proof.leaf(), Some((case.key, case.blob.hash())));
    assert_eq!(proof.siblings(), &case.siblings[..]);
}

#[test]
fn valid_inclusion_succeeds() {
    let case = inclusion_case();
    let proof = proof_of(&case);
    assert_eq!(
        verify_sparse_merkle_element(case.root, case.key, &Some(case.blob.clone()), &proof),
        Ok(())
    );
}

#[test]
fn verification_is_deterministic() {
    let case = inclusion_case();
    let proof = proof_of(&case);
    let bad_root = flip_bit(case.root, 3);
    let first = verify_sparse_merkle_element(bad_root, case.key, &Some(case.blob.clone()), &proof);
    let second = verify_sparse_merkle_element(bad_root, case.key, &Some(case.blob.clone()), &proof);
    assert_eq!(first, second);
}

#[test]
fn single_leaf_tree_without_siblings() {
    let key = hash_of_byte(3);
    let blob = AccountStateBlob::from(vec![9u8]);
    let root = SparseMerkleLeafNode::new(key, blob.hash()).hash();
    let proof = SparseMerkleProof::new(Some((key, blob.hash())), vec![]);
    assert_eq!(verify_sparse_merkle_element(root, key, &Some(blob), &proof), Ok(()));
}

#[test]
fn tampered_root_is_root_mismatch() {
    let case = inclusion_case();
    let proof = proof_of(&case);
    for index in [0usize, 100, 255] {
        let bad_root = flip_bit(case.root, index);
        assert_eq!(
            verify_sparse_merkle_element(bad_root, case.key, &Some(case.blob.clone()), &proof),
            Err(VerificationError::RootMismatch {
                actual_root_hash: case.root,
                expected_root_hash: bad_root,
            })
        );
    }
}

#[test]
fn tampered_sibling_is_root_mismatch() {
    let case = inclusion_case();
    for which in 0..case.siblings.len() {
        let mut siblings = case.siblings.clone();
        siblings[which] = flip_bit(siblings[which], 17);
        let proof = SparseMerkleProof::new(Some((case.key, case.blob.hash())), siblings);
        let r = verify_sparse_merkle_element(case.root, case.key, &Some(case.blob.clone()), &proof);
        assert!(matches!(r, Err(VerificationError::RootMismatch { .. })));
    }
}

#[test]
fn tampered_key_is_key_mismatch() {
    let case = inclusion_case();
    let proof = proof_of(&case);
    let other = flip_bit(case.key, 200);
    assert_eq!(
        verify_sparse_merkle_element(case.root, other, &Some(case.blob.clone()), &proof),
        Err(VerificationError::KeyMismatch { proof_key: case.key, expected_key: other })
    );
}

#[test]
fn tampered_value_hash_is_value_mismatch() {
    let case = inclusion_case();
    let bad_value_hash = flip_bit(case.blob.hash(), 42);
    let proof = SparseMerkleProof::new(Some((case.key, bad_value_hash)), case.siblings.clone());
    assert_eq!(
        verify_sparse_merkle_element(case.root, case.key, &Some(case.blob.clone()), &proof),
        Err(VerificationError::ValueMismatch {
            proof_value_hash: bad_value_hash,
            expected_value_hash: case.blob.hash(),
        })
    );
}

#[test]
fn empty_tree_non_inclusion() {
    let proof = SparseMerkleProof::new(None, vec![]);
    let key = hash_of_byte(0x5a);
    assert_eq!(verify_sparse_merkle_element(placeholder_hash(), key, &None, &proof), Ok(()));
    let blob = AccountStateBlob::from(vec![1u8]);
    assert_eq!(
        verify_sparse_merkle_element(placeholder_hash(), key, &Some(blob), &proof),
        Err(VerificationError::ExpectedInclusionFoundNonInclusion)
    );
}

#[test]
fn empty_subtree_non_inclusion_with_siblings() {
    let key = hash_of_byte(0b0100_0000);
    let siblings = vec![hash_of_byte(1), hash_of_byte(2)];
    let root = root_of(key, placeholder_hash(), &siblings);
    let proof = SparseMerkleProof::new(None, siblings);
    assert_eq!(verify_sparse_merkle_element(root, key, &None, &proof), Ok(()));
    assert!(matches!(
        verify_sparse_merkle_element(flip_bit(root, 0), key, &None, &proof),
        Err(VerificationError::RootMismatch { .. })
    ));
}

#[test]
fn existing_leaf_non_inclusion() {
    let k1 = hash_of_byte(0);
    let blob = AccountStateBlob::from(vec![4u8, 5]);
    let root = SparseMerkleLeafNode::new(k1, blob.hash()).hash();
    let proof = SparseMerkleProof::new(Some((k1, blob.hash())), vec![]);
    let k2 = flip_bit(k1, 0);
    assert_eq!(verify_sparse_merkle_element(root, k2, &None, &proof), Ok(()));
    assert_eq!(
        verify_sparse_merkle_element(root, k1, &None, &proof),
        Err(VerificationError::NonInclusionKeyExists)
    );
}

#[test]
fn existing_leaf_non_inclusion_with_siblings() {
    let k1 = hash_of_byte(0b1100_0000);
    let blob = AccountStateBlob::from(vec![6u8]);
    let siblings = vec![hash_of_byte(8), hash_of_byte(9)];
    let root = root_of(k1, SparseMerkleLeafNode::new(k1, blob.hash()).hash(), &siblings);
    let proof = SparseMerkleProof::new(Some((k1, blob.hash())), siblings);
    let k2 = flip_bit(k1, 2);
    assert_eq!(verify_sparse_merkle_element(root, k2, &None, &proof), Ok(()));
    let k3 = flip_bit(k1, 1);
    assert_eq!(
        verify_sparse_merkle_element(root, k3, &None, &proof),
        Err(VerificationError::InvalidNonInclusionProof)
    );
}

#[test]
fn too_many_siblings() {
    let siblings = vec![hash_of_byte(1); 257];
    let proof = SparseMerkleProof::new(None, siblings);
    let key = hash_of_byte(0);
    assert_eq!(
        verify_sparse_merkle_element(placeholder_hash(), key, &None, &proof),
        Err(VerificationError::TooManySiblings { num_siblings: 257 })
    );
    let blob = AccountStateBlob::from(vec![1u8]);
    assert_eq!(
        verify_sparse_merkle_element(placeholder_hash(), key, &Some(blob), &proof),
        Err(VerificationError::TooManySiblings { num_siblings: 257 })
    );
}

#[test]
fn full_depth_proof_is_accepted() {
    let key = hash_of_byte(0b1001_0110);
    let blob = AccountStateBlob::from(vec![7u8]);
    let siblings = vec![hash_of_byte(3); 256];
    let root = root_of(key, SparseMerkleLeafNode::new(key, blob.hash()).hash(), &siblings);
    let proof = SparseMerkleProof::new(Some((key, blob.hash())), siblings);
    assert_eq!(verify_sparse_merkle_element(root, key, &Some(blob), &proof), Ok(()));
}

#[test]
fn compressed_proof_expands_default_siblings() {
    let a = hash_of_byte(1);
    let b = hash_of_byte(2);
    let bitmap = SparseMerkleBitmap::from_bits(&[true, false, false, true]);
    let key = hash_of_byte(0x33);
    let value_hash = hash_of_byte(0x44);
    let proof = SparseMerkleProof::from_compressed(Some((key, value_hash)), &bitmap, &[a, b])
        .unwrap();
    assert_eq!(proof.leaf(), Some((key, value_hash)));
    assert_eq!(proof.siblings(), &[a, placeholder_hash(), placeholder_hash(), b][..]);
}

#[test]
fn compressed_proof_with_wrong_sibling_count() {
    let a = hash_of_byte(1);
    let bitmap = SparseMerkleBitmap::from_bits(&[true, false, true]);
    assert!(SparseMerkleProof::from_compressed(None, &bitmap, &[a]).is_none());
    assert!(SparseMerkleProof::from_compressed(None, &bitmap, &[a, a, a]).is_none());
    assert!(SparseMerkleProof::from_compressed(None, &bitmap, &[a, a]).is_some());
}

#[test]
fn compressed_proof_with_placeholder_last() {
    let a = hash_of_byte(1);
    let bitmap = SparseMerkleBitmap::from_bits(&[true, true]);
    assert!(SparseMerkleProof::from_compressed(None, &bitmap, &[a, placeholder_hash()]).is_none());
}

#[test]
fn compressed_empty_bitmap_gives_empty_path() {
    let bitmap = SparseMerkleBitmap::new(vec![]);
    let proof = SparseMerkleProof::from_compressed(None, &bitmap, &[]).unwrap();
    assert!(proof.siblings().is_empty());
    assert_eq!(
        verify_sparse_merkle_element(placeholder_hash(), hash_of_byte(9), &None, &proof),
        Ok(())
    );
}

#[test]
fn conversions_to_bytes() {
    let blob = AccountStateBlob::from(vec![3u8, 4]);
    assert_eq!(Vec::<u8>::from(blob), vec![3u8, 4]);
    let bitmap = SparseMerkleBitmap::new(vec![0x80]);
    assert_eq!(Vec::<u8>::from(bitmap.clone()), vec![0x80]);
    assert_eq!(bitmap.to_bits(), vec![true]);
}
