//! Content digests: the BLAKE3 hash of a file's bytes, in lowercase hex.

use vstd::prelude::*;

verus! {

/// The 32-byte BLAKE3 hash of `data`.
pub uninterp spec fn blake3_of(data: Seq<u8>) -> Seq<u8>;

/// The lowercase hexadecimal digit for `n < 16`.
pub open spec fn hex_digit(n: u8) -> char {
    if n < 10 {
        (n + 48) as char
    } else {
        (n + 87) as char
    }
}

/// Two lowercase hexadecimal digits per byte, high nibble first.
pub open spec fn hex_lower(b: Seq<u8>) -> Seq<char>
    decreases b.len(),
{
    if b.len() == 0 {
        seq![]
    } else {
        hex_lower(b.drop_last()) + seq![hex_digit(b.last() / 16), hex_digit(b.last() % 16)]
    }
}

pub proof fn lemma_hex_lower_len(b: Seq<u8>)
    ensures
        hex_lower(b).len() == 2 * b.len(),
    decreases b.len(),
{
    if b.len() > 0 {
        lemma_hex_lower_len(b.drop_last());
    }
}

/// Relies on `blake3::hash`, whose `Hash` holds 32 bytes.
#[verifier::external_body]
fn blake3_hash(data: &[u8]) -> (r: Vec<u8>)
    ensures
        r@ == blake3_of(data@),
        r@.len() == 32,
{
    blake3::hash(data).as_bytes().to_vec()
}

/// Relies on `data_encoding::HEXLOWER.encode`: the symbols `0-9a-f`, two
/// per byte, high nibble first, no padding. Its `encode_len` panics on inputs
/// longer than `usize::MAX / 512` bytes.
#[verifier::external_body]
fn hex_lower_encode(b: &[u8]) -> (r: String)
    requires
        b@.len() <= usize::MAX / 512,
    ensures
        r@ == hex_lower(b@),
{
    data_encoding::HEXLOWER.encode(b)
}

/// The lowercase hex text of a digest.
pub fn digest_hex(digest: &[u8]) -> (r: String)
    requires
        digest@.len() <= usize::MAX / 512,
    ensures
        r@ == hex_lower(digest@),
        r@.len() == 2 * digest@.len(),
{
    proof {
        lemma_hex_lower_len(digest@);
    }
    hex_lower_encode(digest)
}

/// The content digest of `data`: its BLAKE3 hash in lowercase hex, 64
/// characters long.
pub fn content_digest(data: &[u8]) -> (r: String)
    ensures
        r@ == hex_lower(blake3_of(data@)),
        r@.len() == 64,
{
    let h = blake3_hash(data);
    digest_hex(h.as_slice())
}

} // verus!
