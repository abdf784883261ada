//! Content hashes: the SHA-256 digest of a byte sequence, written as
//! lower-case hexadecimal text.

use vstd::prelude::*;
use sha2::{Digest, Sha256};
use crate::text::string_of;

verus! {

/// The SHA-256 digest of `data`, as `sha2::Sha256::digest` computes it.
pub uninterp spec fn sha256(data: Seq<u8>) -> Seq<u8>;

/// Computes the SHA-256 digest of `data` with `sha2::Sha256::digest`.
/// The result is a function of the bytes alone.
#[verifier::external_body]
pub(crate) fn sha256_digest(data: &Vec<u8>) -> (digest: Vec<u8>)
    ensures
        digest@ == sha256(data@),
{
    Sha256::digest(data).to_vec()
}

/// The hexadecimal digit for a value below sixteen.
pub open spec fn hex_digit(value: int) -> char {
    if value < 10 {
        ((48 + value) as u8) as char
    } else {
        ((87 + value) as u8) as char
    }
}

/// The lower-case hexadecimal text of `bytes`: two digits per byte, the
/// high half first.
pub open spec fn hex(bytes: Seq<u8>) -> Seq<char> {
    Seq::new(
        2 * bytes.len(),
        |i: int|
            if i % 2 == 0 {
                hex_digit(bytes[i / 2] as int / 16)
            } else {
                hex_digit(bytes[i / 2] as int % 16)
            },
    )
}

/// The content hash of `data`: its SHA-256 digest in hexadecimal.
pub open spec fn content_hash(data: Seq<u8>) -> Seq<char> {
    hex(sha256(data))
}

fn digit(value: u8) -> (c: char)
    requires
        value < 16,
    ensures
        c == hex_digit(value as int),
{
    if value < 10 {
        (48 + value) as char
    } else {
        (87 + value) as char
    }
}

/// The lower-case hexadecimal text of `bytes`.
pub fn hex_encode(bytes: &Vec<u8>) -> (text: String)
    ensures
        text@ == hex(bytes@),
{
    let mut out: Vec<char> = Vec::new();
    let mut i: usize = 0;
    while i < bytes.len()
        invariant
            i <= bytes.len(),
            out@ == hex(bytes@.take(i as int)),
        decreases bytes.len() - i,
    {
        let byte = bytes[i];
        out.push(digit(byte / 16));
        out.push(digit(byte % 16));
        i += 1;
        assert(out@ =~= hex(bytes@.take(i as int)));
    }
    assert(bytes@.take(i as int) =~= bytes@);
    string_of(&out)
}

/// The content hash of `data`.
pub fn hash_content(data: &Vec<u8>) -> (hash: String)
    ensures
        hash@ == content_hash(data@),
{
    let digest = sha256_digest(data);
    hex_encode(&digest)
}

} // verus!
