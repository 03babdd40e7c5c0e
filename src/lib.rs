//! Verification of Sparse Merkle Tree proofs: a key/value pair, or the absence of a key, is
//! checked against a trusted root hash using a leaf descriptor and a path of sibling hashes.
pub mod account;
pub mod bitmap;
pub mod hash_value;
pub mod hasher;
pub mod merkle_proof;

pub use account::AccountStateBlob;
pub use bitmap::{SparseMerkleBitmap, SparseMerkleBitmapIterator};
pub use hash_value::HashValue;
pub use hasher::{placeholder_hash, HashDomain};
pub use merkle_proof::{
    verify_sparse_merkle_element, MerkleTreeInternalNode, SparseMerkleLeafNode, SparseMerkleProof,
    VerificationError,
};
