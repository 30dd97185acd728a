//! Digests and their textual form.

use sha2::{Digest, Sha256};
use vstd::prelude::*;

verus! {

/// The SHA-256 digest of a byte string.
pub uninterp spec fn sha256_digest(data: Seq<u8>) -> Seq<u8>;

/// `sha2::Sha256::digest`: the 32-byte SHA-256 digest of `data`, the same for
/// the same bytes wherever it is computed.
#[verifier::external_body]
pub(crate) fn sha256(data: &[u8]) -> (out: [u8; 32])
    ensures
        out@ == sha256_digest(data@),
{
    Sha256::digest(data).into()
}

/// The lower-case hexadecimal digit of a value below sixteen.
pub open spec fn hex_digit(nibble: int) -> char {
    seq!['0', '1', '2', '3', '4', '5', '6', '7', '8', '9', 'a', 'b', 'c', 'd', 'e', 'f'][nibble]
}

/// Two lower-case hexadecimal digits per byte, high nibble first.
pub open spec fn hex_lower(data: Seq<u8>) -> Seq<char> {
    Seq::new(
        2 * data.len(),
        |i: int|
            if i % 2 == 0 {
                hex_digit(data[i / 2] as int / 16)
            } else {
                hex_digit(data[i / 2] as int % 16)
            },
    )
}

/// One of the characters `0`-`9`, `a`-`f`.
pub open spec fn is_hex_digit(c: char) -> bool {
    exists|nibble: int| 0 <= nibble < 16 && c == hex_digit(nibble)
}

/// A hexadecimal rendering is twice as long as its input and holds
/// hexadecimal digits only.
pub proof fn lemma_hex_lower_shape(data: Seq<u8>)
    ensures
        hex_lower(data).len() == 2 * data.len(),
        forall|i: int| 0 <= i < hex_lower(data).len() ==> is_hex_digit(#[trigger] hex_lower(data)[i]),
{
    assert forall|i: int| 0 <= i < hex_lower(data).len() implies is_hex_digit(
        #[trigger] hex_lower(data)[i],
    ) by {
        let byte = data[i / 2] as int;
        if i % 2 == 0 {
            assert(0 <= byte / 16 < 16);
            assert(hex_lower(data)[i] == hex_digit(byte / 16));
        } else {
            assert(0 <= byte % 16 < 16);
            assert(hex_lower(data)[i] == hex_digit(byte % 16));
        }
    }
}

/// A digest of 32 bytes in hexadecimal: 64 hexadecimal digits.
pub open spec fn is_hex_digest(text: Seq<char>) -> bool {
    &&& text.len() == 64
    &&& forall|i: int| 0 <= i < 64 ==> is_hex_digit(#[trigger] text[i])
}

/// `hex::encode`: each byte as two lower-case hexadecimal digits, high nibble
/// first, in the order of the input.
#[verifier::external_body]
pub(crate) fn hex_encode(data: &[u8]) -> (text: String)
    ensures
        text@ == hex_lower(data@),
{
    hex::encode(data)
}

/// Whether two digests hold the same bytes.
pub fn digest_eq(left: &[u8; 32], right: &[u8; 32]) -> (same: bool)
    ensures
        same == (left@ == right@),
{
    let mut i: usize = 0;
    while i < 32
        invariant
            i <= 32,
            forall|k: int| 0 <= k < i ==> left@[k] == right@[k],
        decreases 32 - i,
    {
        if left[i] != right[i] {
            return false;
        }
        i += 1;
    }
    assert(left@ =~= right@);
    true
}

} // verus!
