//! Salted scorer.
//!
//! The score of a nonce against a hash-input prefix (salt bytes followed by
//! the encoded target) is computed by hashing `prefix || nonce` with SHA-256,
//! the nonce encoded as 8 big-endian bytes, and reading the first 16 bytes of
//! the 32-byte digest as a big-endian unsigned 128-bit integer.

use vstd::prelude::*;
use crate::network_byte_order::be_bytes;
use crate::network_byte_order::be_val;
use crate::network_byte_order::put;
use crate::network_byte_order::put_be;
use crate::network_byte_order::read_be;

verus! {

/// The 32-byte SHA-256 digest of `input`.
pub uninterp spec fn sha256_of(input: Seq<u8>) -> Seq<u8>;

/// Relies on `sha2::Sha256` through the `Digest` trait: `digest` returns the
/// SHA-256 hash of the input bytes, 32 bytes long and determined by the input
/// alone.
#[verifier::external_body]
fn sha256(bytes: &[u8]) -> (r: Vec<u8>)
    ensures
        r@ == sha256_of(bytes@),
        r@.len() == 32,
{
    <sha2::Sha256 as sha2::Digest>::digest(bytes).to_vec()
}

/// The score of `nonce` against the hash-input prefix `prefix`.
pub open spec fn score_of(prefix: Seq<u8>, nonce: u64) -> nat {
    be_val(sha256_of(prefix + be_bytes(nonce as nat, 8)).take(16))
}

/// Reads the first 16 bytes of `inp` as a big-endian unsigned integer.
pub fn first_bytes_as_u128(inp: &[u8]) -> (r: u128)
    requires
        inp@.len() >= 16,
    ensures
        r == be_val(inp@.take(16)),
{
    read_be(inp, 16)
}

/// Computes the score of `nonce` against `prefix`: SHA-256 over
/// `prefix || nonce`, first 16 digest bytes as a big-endian unsigned
/// 128-bit integer.
pub fn score(prefix: &[u8], nonce: u64) -> (r: u128)
    ensures
        r == score_of(prefix@, nonce),
{
    let mut input: Vec<u8> = Vec::new();
    put(prefix, &mut input);
    put_be(nonce as u128, 8, &mut input);
    proof {
        assert(input@ =~= prefix@ + be_bytes(nonce as nat, 8));
    }
    let digest = sha256(input.as_slice());
    first_bytes_as_u128(digest.as_slice())
}

} // verus!
