//! The bitmap of a compressed proof: one bit per sibling, set for a non-default sibling.
use vstd::prelude::*;
use vstd::std_specs::bits::{axiom_u8_trailing_zeros, u8_trailing_zeros};
use crate::hash_value::bit_at;

verus! {

/// A bitmap is canonical when its last byte, if any, is not zero.
pub open spec fn canonical_bitmap(bytes: Seq<u8>) -> bool {
    bytes.len() > 0 ==> bytes.last() != 0
}

/// The number of bits a bitmap encodes: all bits up to its last set bit.
pub open spec fn decoded_len(bytes: Seq<u8>) -> int {
    if bytes.len() == 0 {
        0
    } else {
        8 * bytes.len() - u8_trailing_zeros(bytes.last())
    }
}

/// The bits a bitmap encodes, most significant bit of the first byte first.
pub open spec fn decode_bits(bytes: Seq<u8>) -> Seq<bool> {
    Seq::new(decoded_len(bytes) as nat, |i: int| bit_at(bytes, i))
}

/// `bits` without its trailing run of `false`.
pub open spec fn trim_trailing_false(bits: Seq<bool>) -> Seq<bool>
    decreases bits.len(),
{
    if bits.len() == 0 {
        bits
    } else if !bits.last() {
        trim_trailing_false(bits.drop_last())
    } else {
        bits
    }
}

proof fn lemma_set_bit(b: u8, q: u8, r: u8)
    requires
        q < 8,
        r < 8,
    ensures
        ((b | (1u8 << (7 - q) as u8)) >> (7 - r) as u8) & 1u8 == (if r == q {
            1u8
        } else {
            (b >> (7 - r) as u8) & 1u8
        }),
{
    assert(((b | (1u8 << (7 - q) as u8)) >> (7 - r) as u8) & 1u8 == (if r == q {
        1u8
    } else {
        (b >> (7 - r) as u8) & 1u8
    })) by (bit_vector)
        requires
            q < 8,
            r < 8,
    ;
}

proof fn lemma_zero_bits(r: u8)
    ensures
        (0u8 >> r) & 1u8 == 0u8,
{
    assert((0u8 >> r) & 1u8 == 0u8) by (bit_vector);
}

/// The trailing zeros of a byte whose bit `7 - t` (counting from the most significant) is set
/// and whose less significant bits are all clear number `t`.
proof fn lemma_trailing_zeros(b: u8, t: u8)
    requires
        t < 8,
        (b >> t) & 1u8 == 1u8,
        forall|s: u8| s < t ==> #[trigger] ((b >> s) & 1u8) == 0u8,
    ensures
        u8_trailing_zeros(b) == t,
{
    axiom_u8_trailing_zeros(b);
    if b == 0 {
        assert((0u8 >> t) & 1u8 == 0u8) by (bit_vector);
    }
    let z = u8_trailing_zeros(b) as u8;
    if z < t {
        assert((b >> z) & 1u8 == 0u8);
    } else if z > t {
        assert((b >> t) & 1u8 == 0u8);
    }
}

proof fn lemma_byte_from_bits(a: u8, b: u8)
    requires
        (a >> 0u8) & 1u8 == (b >> 0u8) & 1u8,
        (a >> 1u8) & 1u8 == (b >> 1u8) & 1u8,
        (a >> 2u8) & 1u8 == (b >> 2u8) & 1u8,
        (a >> 3u8) & 1u8 == (b >> 3u8) & 1u8,
        (a >> 4u8) & 1u8 == (b >> 4u8) & 1u8,
        (a >> 5u8) & 1u8 == (b >> 5u8) & 1u8,
        (a >> 6u8) & 1u8 == (b >> 6u8) & 1u8,
        (a >> 7u8) & 1u8 == (b >> 7u8) & 1u8,
    ensures
        a == b,
{
    assert(a == b) by (bit_vector)
        requires
            (a >> 0u8) & 1u8 == (b >> 0u8) & 1u8,
            (a >> 1u8) & 1u8 == (b >> 1u8) & 1u8,
            (a >> 2u8) & 1u8 == (b >> 2u8) & 1u8,
            (a >> 3u8) & 1u8 == (b >> 3u8) & 1u8,
            (a >> 4u8) & 1u8 == (b >> 4u8) & 1u8,
            (a >> 5u8) & 1u8 == (b >> 5u8) & 1u8,
            (a >> 6u8) & 1u8 == (b >> 6u8) & 1u8,
            (a >> 7u8) & 1u8 == (b >> 7u8) & 1u8,
    ;
}

proof fn lemma_same_bit(x: Seq<u8>, y: Seq<u8>, i: int, s: u8)
    requires
        canonical_bitmap(x),
        canonical_bitmap(y),
        x.len() == y.len(),
        decode_bits(x) == decode_bits(y),
        0 <= i < x.len(),
        s < 8,
    ensures
        (x[i] >> s) & 1u8 == (y[i] >> s) & 1u8,
{
    let n = x.len();
    let p = 8 * i + 7 - s;
    let vx = x[i] >> s;
    let vy = y[i] >> s;
    assert((vx & 1u8) != 1u8 ==> (vx & 1u8) == 0u8) by (bit_vector);
    assert((vy & 1u8) != 1u8 ==> (vy & 1u8) == 0u8) by (bit_vector);
    assert(p / 8 == i);
    assert((7 - p % 8) as u8 == s);
    axiom_u8_trailing_zeros(x.last());
    axiom_u8_trailing_zeros(y.last());
    assert(decoded_len(x) >= 0 && decoded_len(y) >= 0);
    assert(decode_bits(x).len() == decoded_len(x));
    assert(decode_bits(y).len() == decoded_len(y));
    if p < decoded_len(x) {
        assert(decode_bits(x)[p] == bit_at(x, p));
        assert(decode_bits(y)[p] == bit_at(y, p));
        assert(x[p / 8] == x[i]);
        assert(y[p / 8] == y[i]);
    } else {
        assert(i == n - 1);
        assert(s < u8_trailing_zeros(x.last()));
        assert(s < u8_trailing_zeros(y.last()));
    }
}

/// A canonical bitmap is the only one for its bits: two canonical bitmaps that decode to the
/// same bits are the same bytes.
pub proof fn lemma_canonical_unique(x: Seq<u8>, y: Seq<u8>)
    requires
        canonical_bitmap(x),
        canonical_bitmap(y),
        decode_bits(x) == decode_bits(y),
    ensures
        x == y,
{
    assert(decode_bits(x).len() == decode_bits(y).len());
    if x.len() > 0 {
        axiom_u8_trailing_zeros(x.last());
    }
    if y.len() > 0 {
        axiom_u8_trailing_zeros(y.last());
    }
    assert(decoded_len(x) >= 0 && decoded_len(y) >= 0);
    assert(decode_bits(x).len() == decoded_len(x));
    assert(decode_bits(y).len() == decoded_len(y));
    assert(x.len() == y.len());
    assert forall|i: int| 0 <= i < x.len() implies x[i] == y[i] by {
        lemma_same_bit(x, y, i, 0);
        lemma_same_bit(x, y, i, 1);
        lemma_same_bit(x, y, i, 2);
        lemma_same_bit(x, y, i, 3);
        lemma_same_bit(x, y, i, 4);
        lemma_same_bit(x, y, i, 5);
        lemma_same_bit(x, y, i, 6);
        lemma_same_bit(x, y, i, 7);
        lemma_byte_from_bits(x[i], y[i]);
    }
    assert(x =~= y);
}

/// The bitmap of a compressed proof. Bit 1 marks a non-default sibling and bit 0 a default
/// one; the most significant bit of the first byte belongs to the sibling nearest the root,
/// and the last set bit to the sibling nearest the leaf, which is never default.
#[derive(Clone, Debug, PartialEq, Eq)]
pub struct SparseMerkleBitmap(Vec<u8>);

impl View for SparseMerkleBitmap {
    type V = Seq<u8>;

    closed spec fn view(&self) -> Seq<u8> {
        self.0@
    }
}

impl From<SparseMerkleBitmap> for Vec<u8> {
    fn from(bitmap: SparseMerkleBitmap) -> (r: Vec<u8>) {
        bitmap.0
    }
}

impl vstd::std_specs::convert::FromSpecImpl<SparseMerkleBitmap> for Vec<u8> {
    open spec fn obeys_from_spec() -> bool {
        true
    }

    closed spec fn from_spec(bitmap: SparseMerkleBitmap) -> Vec<u8> {
        bitmap.0
    }
}

impl SparseMerkleBitmap {
    /// The bitmap made of `bitmap`, which must be canonical.
    pub fn new(bitmap: Vec<u8>) -> (r: Self)
        requires
            canonical_bitmap(bitmap@),
        ensures
            r@ == bitmap@,
    {
        SparseMerkleBitmap(bitmap)
    }

    /// The bytes of the bitmap.
    pub fn into_bytes(self) -> (r: Vec<u8>)
        ensures
            r@ == self@,
    {
        self.0
    }

    /// An iterator over the bits of the bitmap.
    pub fn iter(&self) -> (r: SparseMerkleBitmapIterator<'_>)
        requires
            canonical_bitmap(self@),
            self@.len() <= usize::MAX / 8,
        ensures
            r.bytes() == self@,
            r.index() == 0,
            r.len() == decoded_len(self@),
    {
        SparseMerkleBitmapIterator::new(self.0.as_slice())
    }

    /// The canonical bitmap of `bits`: the bits are packed eight to a byte, most significant
    /// bit first, and a trailing run of `false` is left out.
    pub fn from_bits(bits: &[bool]) -> (r: Self)
        ensures
            canonical_bitmap(r@),
            decode_bits(r@) == trim_trailing_false(bits@),
    {
        let mut k: usize = bits.len();
        proof {
            assert(bits@.subrange(0, k as int) =~= bits@);
        }
        while k > 0 && !bits[k - 1]
            invariant
                k <= bits@.len(),
                trim_trailing_false(bits@.subrange(0, k as int)) == trim_trailing_false(bits@),
            decreases k,
        {
            proof {
                assert(bits@.subrange(0, k as int).drop_last() =~= bits@.subrange(0, k - 1));
            }
            k = k - 1;
        }
        let ghost kept = bits@.subrange(0, k as int);
        proof {
            if k > 0 {
                assert(trim_trailing_false(kept) == kept);
            } else {
                assert(kept =~= Seq::<bool>::empty());
            }
        }
        let mut bytes: Vec<u8> = Vec::new();
        let mut i: usize = 0;
        while i < k
            invariant
                0 <= i <= k,
                k <= bits@.len(),
                bytes@.len() == (i + 7) / 8,
                forall|j: int| 0 <= j < i ==> bit_at(bytes@, j) == bits@[j],
                forall|j: int| i <= j < 8 * bytes@.len() ==> !bit_at(bytes@, j),
            decreases k - i,
        {
            let pos = i % 8;
            if pos == 0 {
                let ghost prev = bytes@;
                bytes.push(0u8);
                proof {
                    assert forall|j: int| i <= j < 8 * bytes@.len() implies !bit_at(bytes@, j) by {
                        if j < 8 * prev.len() {
                            assert(bytes@[j / 8] == prev[j / 8]);
                        } else {
                            lemma_zero_bits((7 - j % 8) as u8);
                        }
                    }
                    assert forall|j: int| 0 <= j < i implies bit_at(bytes@, j) == bits@[j] by {
                        assert(bytes@[j / 8] == prev[j / 8]);
                    }
                }
            }
            if bits[i] {
                let ghost prev = bytes@;
                let last = bytes.len() - 1;
                let b = bytes[last];
                bytes.set(last, b | (1u8 << (7 - pos as u8)));
                proof {
                    assert forall|j: int| 0 <= j < 8 * bytes@.len() implies bit_at(bytes@, j) == (
                    if j == i {
                        true
                    } else {
                        bit_at(prev, j)
                    }) by {
                        if j / 8 == last {
                            lemma_set_bit(b, pos as u8, (j % 8) as u8);
                        } else {
                            assert(bytes@[j / 8] == prev[j / 8]);
                        }
                    }
                }
            }
            i = i + 1;
        }
        proof {
            if k > 0 {
                let n = bytes@.len();
                let t = (7 - (k - 1) % 8) as u8;
                let b = bytes@.last();
                assert(n == (k - 1) / 8 + 1);
                assert(8 * ((k - 1) / 8) + (k - 1) % 8 == k - 1);
                assert(bit_at(bytes@, k - 1));
                assert(bytes@[(k - 1) / 8] == b);
                assert((7 - (k - 1) % 8) as u8 == t);
                assert forall|s: u8| s < t implies #[trigger] ((b >> s) & 1u8) == 0u8 by {
                    let j = 8 * (n - 1) + 7 - s;
                    assert(j / 8 == n - 1);
                    assert(j % 8 == 7 - s);
                    assert(k <= j < 8 * n);
                    assert(!bit_at(bytes@, j));
                    assert(bytes@[j / 8] == b);
                    assert((7 - j % 8) as u8 == s);
                    let x = b >> s;
                    assert((x & 1u8) != 1u8 ==> (x & 1u8) == 0u8) by (bit_vector);
                }
                lemma_trailing_zeros(b, t);
            }
            assert(decode_bits(bytes@) =~= kept);
        }
        SparseMerkleBitmap(bytes)
    }

    /// All the bits of the bitmap, in order.
    pub fn to_bits(&self) -> (r: Vec<bool>)
        requires
            canonical_bitmap(self@),
            self@.len() <= usize::MAX / 8,
        ensures
            r@ == decode_bits(self@),
    {
        let mut it = self.iter();
        let mut r: Vec<bool> = Vec::new();
        loop
            invariant
                it.bytes() == self@,
                it.len() == decoded_len(self@),
                it.index() <= it.len(),
                r@ == decode_bits(self@).subrange(0, it.index() as int),
            ensures
                it.index() == it.len(),
                it.len() == decoded_len(self@),
                r@ == decode_bits(self@).subrange(0, it.index() as int),
            decreases it.len() - it.index(),
        {
            match it.next() {
                Some(bit) => {
                    r.push(bit);
                    proof {
                        assert(r@ =~= decode_bits(self@).subrange(0, it.index() as int));
                    }
                },
                None => {
                    break;
                },
            }
        }
        proof {
            assert(r@ =~= decode_bits(self@));
        }
        r
    }
}

/// Yields the bits of a bitmap one at a time, starting from the most significant bit of the
/// first byte; the trailing zeros of the last byte are not yielded.
pub struct SparseMerkleBitmapIterator<'a> {
    bitmap: &'a [u8],
    index: usize,
    len: usize,
}

impl<'a> SparseMerkleBitmapIterator<'a> {
    /// The bytes being read.
    pub closed spec fn bytes(&self) -> Seq<u8> {
        self.bitmap@
    }

    /// The position of the next bit.
    pub closed spec fn index(&self) -> int {
        self.index as int
    }

    /// The number of bits yielded in all.
    pub closed spec fn len(&self) -> int {
        self.len as int
    }

    /// An iterator over the bits of the canonical bitmap `bitmap`.
    pub fn new(bitmap: &'a [u8]) -> (r: Self)
        requires
            canonical_bitmap(bitmap@),
            bitmap@.len() <= usize::MAX / 8,
        ensures
            r.bytes() == bitmap@,
            r.index() == 0,
            r.len() == decoded_len(bitmap@),
    {
        let n = bitmap.len();
        if n == 0 {
            return SparseMerkleBitmapIterator { bitmap, index: 0, len: 0 };
        }
        let last_byte = bitmap[n - 1];
        proof {
            axiom_u8_trailing_zeros(last_byte);
        }
        SparseMerkleBitmapIterator {
            bitmap,
            index: 0,
            len: n * 8 - last_byte.trailing_zeros() as usize,
        }
    }

    /// The next bit, or `None` once all bits have been yielded.
    pub fn next(&mut self) -> (r: Option<bool>)
        requires
            old(self).index() <= old(self).len(),
            old(self).len() == decoded_len(old(self).bytes()),
        ensures
            final(self).bytes() == old(self).bytes(),
            final(self).len() == old(self).len(),
            old(self).index() < old(self).len() ==> r == Some(bit_at(old(self).bytes(), old(self).index()))
                && final(self).index() == old(self).index() + 1,
            old(self).index() >= old(self).len() ==> r is None && final(self).index() == old(self).index(),
    {
        if self.index >= self.len {
            return None;
        }
        let pos = self.index / 8;
        let bit = self.index % 8;
        let ret = (self.bitmap[pos] >> (7 - bit as u8)) & 1u8 == 1u8;
        self.index = self.index + 1;
        Some(ret)
    }
}

} // verus!
