//! The fixed-width digest used for keys, values and tree nodes.
use vstd::prelude::*;

verus! {

/// Number of bytes in a digest.
pub const HASH_LENGTH: usize = 32;

/// Number of bits in a digest, which is also the depth of the tree.
pub const HASH_LENGTH_IN_BITS: usize = 256;

/// Bit `i` of a byte sequence, counting from the most significant bit of the first byte.
pub open spec fn bit_at(bytes: Seq<u8>, i: int) -> bool {
    (bytes[i / 8] >> ((7 - i % 8) as u8)) & 1u8 == 1u8
}

/// `a` and `b` agree on their first `n` bits.
pub open spec fn share_prefix(a: Seq<u8>, b: Seq<u8>, n: int) -> bool {
    forall|j: int| 0 <= j < n ==> bit_at(a, j) == bit_at(b, j)
}

/// A 256-bit digest.
#[derive(Clone, Copy, Debug)]
pub struct HashValue {
    hash: [u8; 32],
}

impl View for HashValue {
    type V = Seq<u8>;

    closed spec fn view(&self) -> Seq<u8> {
        self.hash@
    }
}

impl PartialEq for HashValue {
    fn eq(&self, other: &HashValue) -> (r: bool) {
        let mut i: usize = 0;
        while i < HASH_LENGTH
            invariant
                0 <= i <= HASH_LENGTH,
                self@.len() == 32,
                other@.len() == 32,
                forall|j: int| 0 <= j < i ==> self@[j] == other@[j],
            decreases HASH_LENGTH - i,
        {
            if self.hash[i] != other.hash[i] {
                return false;
            }
            i = i + 1;
        }
        proof {
            assert(self@ =~= other@);
        }
        true
    }
}

impl vstd::std_specs::cmp::PartialEqSpecImpl for HashValue {
    open spec fn obeys_eq_spec() -> bool {
        true
    }

    open spec fn eq_spec(&self, other: &HashValue) -> bool {
        self@ == other@
    }
}

impl Eq for HashValue {
}

impl HashValue {
    /// Number of bits in a digest.
    pub const LENGTH_IN_BITS: usize = 256;

    /// The digest whose bytes are `hash`.
    pub fn new(hash: [u8; 32]) -> (r: HashValue)
        ensures
            r@ == hash@,
    {
        HashValue { hash }
    }

    /// The digest made of the 32 bytes of `bytes`; `None` for any other length.
    pub fn from_slice(bytes: &[u8]) -> (r: Option<HashValue>)
        ensures
            r is Some <==> bytes@.len() == 32,
            r matches Some(h) ==> h@ == bytes@,
    {
        if bytes.len() != HASH_LENGTH {
            return None;
        }
        let mut hash: [u8; 32] = [0u8; 32];
        let mut i: usize = 0;
        while i < HASH_LENGTH
            invariant
                0 <= i <= HASH_LENGTH,
                bytes@.len() == 32,
                hash@.len() == 32,
                forall|j: int| 0 <= j < i ==> hash@[j] == bytes@[j],
            decreases HASH_LENGTH - i,
        {
            hash[i] = bytes[i];
            i = i + 1;
        }
        proof {
            assert(hash@ =~= bytes@);
        }
        Some(HashValue { hash })
    }

    /// The 32 bytes of the digest.
    pub fn to_vec(&self) -> (r: Vec<u8>)
        ensures
            r@ == self@,
    {
        let mut r: Vec<u8> = Vec::new();
        let mut i: usize = 0;
        while i < HASH_LENGTH
            invariant
                0 <= i <= HASH_LENGTH,
                self@.len() == 32,
                r@ == self@.subrange(0, i as int),
            decreases HASH_LENGTH - i,
        {
            r.push(self.hash[i]);
            i = i + 1;
            proof {
                assert(r@ =~= self@.subrange(0, i as int));
            }
        }
        proof {
            assert(r@ =~= self@);
        }
        r
    }

    /// Appends the 32 bytes of the digest to `out`.
    pub fn append_to(&self, out: &mut Vec<u8>)
        requires
            old(out)@.len() + 32 <= usize::MAX,
        ensures
            final(out)@ == old(out)@ + self@,
            self@.len() == 32,
    {
        let ghost start = out@;
        let mut i: usize = 0;
        while i < HASH_LENGTH
            invariant
                0 <= i <= HASH_LENGTH,
                self@.len() == 32,
                start.len() + 32 <= usize::MAX,
                out@ == start + self@.subrange(0, i as int),
            decreases HASH_LENGTH - i,
        {
            out.push(self.hash[i]);
            i = i + 1;
            proof {
                assert(out@ =~= start + self@.subrange(0, i as int));
            }
        }
        proof {
            assert(self@.subrange(0, 32) =~= self@);
        }
    }

    /// Bit `index` of the digest, the most significant bit of the first byte being bit 0.
    pub fn bit(&self, index: usize) -> (r: bool)
        requires
            index < 256,
        ensures
            r == bit_at(self@, index as int),
    {
        let byte = self.hash[index / 8];
        let shift = (7 - index % 8) as u8;
        (byte >> shift) & 1u8 == 1u8
    }

    /// The number of leading bits that `self` and `other` have in common.
    pub fn common_prefix_bits_len(&self, other: &HashValue) -> (r: usize)
        ensures
            r <= 256,
            share_prefix(self@, other@, r as int),
            r < 256 ==> bit_at(self@, r as int) != bit_at(other@, r as int),
    {
        let mut i: usize = 0;
        while i < HASH_LENGTH_IN_BITS
            invariant
                0 <= i <= HASH_LENGTH_IN_BITS,
                share_prefix(self@, other@, i as int),
            decreases HASH_LENGTH_IN_BITS - i,
        {
            if self.bit(i) != other.bit(i) {
                return i;
            }
            i = i + 1;
        }
        i
    }
}

} // verus!
