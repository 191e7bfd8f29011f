//! The keyed hash `H`: HMAC-SHA-256 under a 32-byte key. It is the only hash
//! of the protocol, and the building block of its key derivation.

use hmac::{Hmac, Mac};
use sha2::Sha256;
use vstd::prelude::*;

verus! {

/// The HMAC-SHA-256 authentication code of `data` under `key`.
pub uninterp spec fn hmac_sha256(key: Seq<u8>, data: Seq<u8>) -> Seq<u8>;

/// `Hmac::<Sha256>`: `new_from_slice` on the key, `update` with the data,
/// `finalize`. Taken on trust: the 32 bytes returned are the code that
/// [`hmac_sha256`] names, a function of key and data alone. HMAC takes a key
/// of any length, so `new_from_slice` does not fail.
#[verifier::external_body]
fn hmac_sha256_code(key: &[u8; 32], data: &[u8]) -> (code: [u8; 32])
    ensures
        code@ == hmac_sha256(key@, data@),
{
    let mut mac = Hmac::<Sha256>::new_from_slice(key).expect("HMAC takes a key of any length");
    mac.update(data);
    mac.finalize().into_bytes().into()
}

/// A 32-byte hash value.
#[derive(Clone, Copy, Debug, PartialEq, Eq)]
pub struct HValue(pub [u8; 32]);

impl View for HValue {
    type V = Seq<u8>;

    open spec fn view(&self) -> Seq<u8> {
        self.0@
    }
}

impl HValue {
    /// Whether the two hash values are equal. Every byte is looked at,
    /// whether or not an earlier one differed.
    pub fn equals(&self, other: &HValue) -> (r: bool)
        ensures
            r == (self@ == other@),
    {
        let mut diff: u8 = 0;
        let mut i: usize = 0;
        while i < 32
            invariant
                0 <= i <= 32,
                diff == 0 <==> (forall|j: int| 0 <= j < i ==> self.0@[j] == other.0@[j]),
            decreases 32 - i,
        {
            let a: u8 = self.0[i];
            let b: u8 = other.0[i];
            let ghost before = diff;
            diff = diff | (a ^ b);
            proof {
                assert((before | (a ^ b)) == 0 <==> (before == 0 && a == b)) by (bit_vector);
            }
            i += 1;
        }
        proof {
            if diff == 0 {
                assert(self.0@ =~= other.0@);
            }
        }
        diff == 0
    }
}

/// `H(key, data)`: the keyed hash of `data`.
pub fn eg_h(key: &HValue, data: &[u8]) -> (h: HValue)
    ensures
        h@ == hmac_sha256(key@, data@),
{
    HValue(hmac_sha256_code(&key.0, data))
}

} // verus!
