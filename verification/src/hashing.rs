//! Digests.

use vstd::prelude::*;
use sha2::Digest;

verus! {

broadcast use vstd::seq::group_seq_axioms;

/// The SHA-256 digest of some bytes.
pub uninterp spec fn sha256_digest(data: Seq<u8>) -> Seq<u8>;

/// Calls `sha2::Sha256::digest`. Claims that the digest depends on the data
/// alone.
#[verifier::external_body]
fn sha256_array(data: &[u8]) -> (r: [u8; 32])
    ensures
        r@ == sha256_digest(data@),
{
    sha2::Sha256::digest(data).into()
}

/// The SHA-256 digest of some bytes: 32 bytes.
pub fn sha256(data: &[u8]) -> (r: [u8; 32])
    ensures
        r@ == sha256_digest(data@),
        sha256_digest(data@).len() == 32,
{
    sha256_array(data)
}

/// Whether stored bytes are a digest.
pub fn is_digest(stored: &Vec<u8>, digest: &[u8; 32]) -> (r: bool)
    ensures
        r == (stored@ == digest@),
{
    if stored.len() != 32 {
        return false;
    }
    let mut i: usize = 0;
    while i < 32
        invariant
            i <= 32,
            stored@.len() == 32,
            digest@.len() == 32,
            forall|k: int| 0 <= k < i ==> stored@[k] == digest@[k],
        decreases 32 - i,
    {
        if stored[i] != digest[i] {
            return false;
        }
        i = i + 1;
    }
    assert(stored@ =~= digest@);
    true
}

/// The lower-case hexadecimal digit of a number below 16.
pub open spec fn hex_char(d: int) -> char {
    if d < 10 {
        (('0' as u32) + d) as char
    } else {
        (('a' as u32) + d - 10) as char
    }
}

/// Two hexadecimal digits for each byte, the higher half first.
pub open spec fn hex_text(bytes: Seq<u8>) -> Seq<char> {
    Seq::new(
        2 * bytes.len(),
        |i: int|
            if i % 2 == 0 {
                hex_char(bytes[i / 2] as int / 16)
            } else {
                hex_char(bytes[i / 2] as int % 16)
            },
    )
}

/// Calls `hex::encode`, which writes two lower-case hexadecimal digits for each
/// byte, the higher half first.
#[verifier::external_body]
pub(crate) fn hex_encode(bytes: &[u8]) -> (r: String)
    ensures
        r@ == hex_text(bytes@),
{
    hex::encode(bytes)
}

} // verus!
