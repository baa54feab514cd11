//! Content identity: a deterministic, collision-resistant fingerprint of a
//! file's bytes, encoded as lowercase hexadecimal. The fingerprint is the
//! sole deduplication key.

use vstd::prelude::*;

verus! {

/// The fingerprint of a byte sequence. It depends on the bytes alone:
/// identical bytes always yield identical fingerprints, regardless of
/// path or metadata.
pub uninterp spec fn fingerprint_of(bytes: Seq<u8>) -> Seq<char>;

/// Whether `c` is a lowercase hexadecimal digit.
pub open spec fn is_lower_hex_char(c: char) -> bool {
    (('0' as u32) <= (c as u32) && (c as u32) <= ('9' as u32)) || (('a' as u32) <= (c as u32)
        && (c as u32) <= ('f' as u32))
}

/// Relies on `blake3::hash` and `blake3::Hash::to_hex`: the digest is a
/// pure function of the input bytes, and its encoding is exactly 64
/// lowercase hexadecimal characters.
#[verifier::external_body]
pub fn fingerprint_bytes(bytes: &[u8]) -> (r: String)
    ensures
        r@ == fingerprint_of(bytes@),
        r@.len() == 64,
        forall|i: int| 0 <= i < r@.len() ==> is_lower_hex_char(r@[i]),
{
    blake3::hash(bytes).to_hex().as_str().to_owned()
}

} // verus!
