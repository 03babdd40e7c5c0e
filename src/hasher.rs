//! Domain-separated hashing of tree nodes and account blobs, on top of SHA3-256.
use vstd::prelude::*;
use crate::hash_value::HashValue;

verus! {

/// The SHA3-256 digest of `data`.
pub uninterp spec fn sha3_256_of(data: Seq<u8>) -> Seq<u8>;

/// Relies on sha3::Sha3_256 through digest::Digest (new, update, finalize): the SHA3-256 digest
/// of `prefix` followed by `data`, which depends on those bytes alone.
#[verifier::external_body]
fn sha3_256(prefix: &[u8], data: &[u8]) -> (r: [u8; 32])
    ensures
        r@ == sha3_256_of(prefix@ + data@),
{
    let mut hasher = <sha3::Sha3_256 as sha3::Digest>::new();
    sha3::Digest::update(&mut hasher, prefix);
    sha3::Digest::update(&mut hasher, data);
    sha3::Digest::finalize(hasher).into()
}

/// The kinds of objects that are hashed, each under a tag of its own, so that the same bytes
/// hashed as two different kinds give unrelated digests.
#[derive(Clone, Copy, Debug, PartialEq, Eq, Structural)]
pub enum HashDomain {
    InternalNode,
    LeafNode,
    AccountBlob,
}

/// The tag that prefixes every input hashed in `domain`.
pub open spec fn domain_tag(domain: HashDomain) -> Seq<u8> {
    match domain {
        // "SparseMerkleInternal"
        HashDomain::InternalNode => seq![
            83u8, 112, 97, 114, 115, 101, 77, 101, 114, 107, 108, 101, 73, 110, 116, 101, 114,
            110, 97, 108,
        ],
        // "SparseMerkleLeaf"
        HashDomain::LeafNode => seq![
            83u8, 112, 97, 114, 115, 101, 77, 101, 114, 107, 108, 101, 76, 101, 97, 102,
        ],
        // "AccountStateBlob"
        HashDomain::AccountBlob => seq![
            65u8, 99, 99, 111, 117, 110, 116, 83, 116, 97, 116, 101, 66, 108, 111, 98,
        ],
    }
}

/// The digest of `data` hashed in `domain`.
pub open spec fn domain_digest(domain: HashDomain, data: Seq<u8>) -> Seq<u8> {
    sha3_256_of(domain_tag(domain) + data)
}

/// The bytes of the placeholder digest that stands for an empty subtree: the ASCII text
/// "SPARSE_MERKLE_PLACEHOLDER_HASH" padded with zero bytes to 32 bytes.
pub open spec fn placeholder_bytes() -> Seq<u8> {
    seq![
        83u8, 80, 65, 82, 83, 69, 95, 77, 69, 82, 75, 76, 69, 95, 80, 76, 65, 67, 69, 72, 79, 76,
        68, 69, 82, 95, 72, 65, 83, 72, 0, 0,
    ]
}

impl HashDomain {
    /// The tag of this domain, as bytes.
    pub fn tag(&self) -> (r: Vec<u8>)
        ensures
            r@ == domain_tag(*self),
    {
        match self {
            HashDomain::InternalNode => vec![
                83u8, 112, 97, 114, 115, 101, 77, 101, 114, 107, 108, 101, 73, 110, 116, 101, 114,
                110, 97, 108,
            ],
            HashDomain::LeafNode => vec![
                83u8, 112, 97, 114, 115, 101, 77, 101, 114, 107, 108, 101, 76, 101, 97, 102,
            ],
            HashDomain::AccountBlob => vec![
                65u8, 99, 99, 111, 117, 110, 116, 83, 116, 97, 116, 101, 66, 108, 111, 98,
            ],
        }
    }

    /// Hashes `data` in this domain.
    pub fn hash(&self, data: &[u8]) -> (r: HashValue)
        ensures
            r@ == domain_digest(*self, data@),
    {
        let tag = self.tag();
        HashValue::new(sha3_256(tag.as_slice(), data))
    }
}

/// The placeholder digest of an empty subtree.
pub fn placeholder_hash() -> (r: HashValue)
    ensures
        r@ == placeholder_bytes(),
{
    let r = HashValue::new([
        83u8, 80, 65, 82, 83, 69, 95, 77, 69, 82, 75, 76, 69, 95, 80, 76, 65, 67, 69, 72, 79, 76,
        68, 69, 82, 95, 72, 65, 83, 72, 0, 0,
    ]);
    proof {
        assert(r@ =~= placeholder_bytes());
    }
    r
}

/// Inputs hashed in two different domains never coincide: no choice of data makes the bytes
/// fed to the hash function the same, so nodes of different kinds cannot be confused.
pub proof fn lemma_domains_separated(d1: HashDomain, d2: HashDomain, a: Seq<u8>, b: Seq<u8>)
    requires
        d1 != d2,
    ensures
        domain_tag(d1) + a != domain_tag(d2) + b,
{
    let x = domain_tag(d1) + a;
    let y = domain_tag(d2) + b;
    if d1 == HashDomain::AccountBlob || d2 == HashDomain::AccountBlob {
        assert(x[0] != y[0]);
    } else {
        assert(x[12] != y[12]);
    }
}

} // verus!
