//! The serialized account state that a tree leaf commits to.
use vstd::prelude::*;
use crate::hash_value::HashValue;
use crate::hasher::{domain_digest, HashDomain};

verus! {

/// The lowercase hexadecimal digit of `n`, for `n < 16`.
pub open spec fn hex_digit(n: u8) -> char {
    seq!['0', '1', '2', '3', '4', '5', '6', '7', '8', '9', 'a', 'b', 'c', 'd', 'e', 'f'][n as int]
}

/// `bytes` written as lowercase hexadecimal, two digits per byte, high digit first.
pub open spec fn hex_lower(bytes: Seq<u8>) -> Seq<char>
    decreases bytes.len(),
{
    if bytes.len() == 0 {
        Seq::empty()
    } else {
        let last = bytes.last();
        hex_lower(bytes.drop_last()) + seq![hex_digit(last / 16), hex_digit(last % 16)]
    }
}

/// Relies on hex::encode: each byte becomes two lowercase hexadecimal digits, high digit first.
#[verifier::external_body]
fn hex_encode(bytes: &[u8]) -> (r: String)
    ensures
        r@ == hex_lower(bytes@),
{
    hex::encode(bytes)
}

/// The digest of an account blob holding `bytes`.
pub open spec fn account_digest(bytes: Seq<u8>) -> Seq<u8> {
    domain_digest(HashDomain::AccountBlob, bytes)
}

/// The raw bytes of an account's state, as stored in a tree leaf.
#[derive(Clone, Debug)]
pub struct AccountStateBlob {
    blob: Vec<u8>,
}

impl View for AccountStateBlob {
    type V = Seq<u8>;

    closed spec fn view(&self) -> Seq<u8> {
        self.blob@
    }
}

impl PartialEq for AccountStateBlob {
    fn eq(&self, other: &AccountStateBlob) -> (r: bool) {
        let n = self.blob.len();
        if n != other.blob.len() {
            return false;
        }
        let mut i: usize = 0;
        while i < n
            invariant
                0 <= i <= n,
                n == self@.len(),
                n == other@.len(),
                forall|j: int| 0 <= j < i ==> self@[j] == other@[j],
            decreases n - i,
        {
            if self.blob[i] != other.blob[i] {
                return false;
            }
            i = i + 1;
        }
        proof {
            assert(self@ =~= other@);
        }
        true
    }
}

impl vstd::std_specs::cmp::PartialEqSpecImpl for AccountStateBlob {
    open spec fn obeys_eq_spec() -> bool {
        true
    }

    open spec fn eq_spec(&self, other: &AccountStateBlob) -> bool {
        self@ == other@
    }
}

impl Eq for AccountStateBlob {
}

impl From<Vec<u8>> for AccountStateBlob {
    fn from(blob: Vec<u8>) -> (r: AccountStateBlob) {
        AccountStateBlob { blob }
    }
}

impl vstd::std_specs::convert::FromSpecImpl<Vec<u8>> for AccountStateBlob {
    open spec fn obeys_from_spec() -> bool {
        true
    }

    closed spec fn from_spec(blob: Vec<u8>) -> AccountStateBlob {
        AccountStateBlob { blob }
    }
}

impl From<AccountStateBlob> for Vec<u8> {
    fn from(blob: AccountStateBlob) -> (r: Vec<u8>) {
        blob.blob
    }
}

impl vstd::std_specs::convert::FromSpecImpl<AccountStateBlob> for Vec<u8> {
    open spec fn obeys_from_spec() -> bool {
        true
    }

    closed spec fn from_spec(blob: AccountStateBlob) -> Vec<u8> {
        blob.blob
    }
}

impl AccountStateBlob {
    /// The bytes of the blob.
    pub fn as_bytes(&self) -> (r: &[u8])
        ensures
            r@ == self@,
    {
        self.blob.as_slice()
    }

    /// Gives back the bytes of the blob.
    pub fn into_bytes(self) -> (r: Vec<u8>)
        ensures
            r@ == self@,
    {
        self.blob
    }

    /// The digest of the blob, hashed in the account-blob domain.
    pub fn hash(&self) -> (r: HashValue)
        ensures
            r@ == account_digest(self@),
    {
        HashDomain::AccountBlob.hash(self.blob.as_slice())
    }

    /// The bytes of the blob as lowercase hexadecimal.
    pub fn raw_hex(&self) -> (r: String)
        ensures
            r@ == hex_lower(self@),
    {
        hex_encode(self.blob.as_slice())
    }
}

} // verus!
