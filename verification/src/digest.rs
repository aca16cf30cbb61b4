//! SHA-512 through rust-crypto.

use crypto::digest::Digest;
use crypto::sha2::Sha512;
use vstd::prelude::*;

verus! {

/// The SHA-512 digest of `data`, as computed by rust-crypto's `Sha512`.
pub uninterp spec fn sha512_digest(data: Seq<u8>) -> Seq<u8>;

/// rust-crypto `Sha512::new`, `Digest::input` and `Digest::result`: the
/// 64 bytes of the SHA-512 digest of `data` (`output_bits` is 512).
#[verifier::external_body]
pub(crate) fn sha512_result(data: &[u8]) -> (digest: Vec<u8>)
    ensures
        digest@ == sha512_digest(data@),
        digest@.len() == 64,
{
    let mut sha = Sha512::new();
    sha.input(data);
    let mut digest = vec![0u8; 64];
    sha.result(&mut digest);
    digest
}

/// rust-crypto `Sha512::new`, `Digest::input` and `Digest::result_str`: the
/// SHA-512 digest of `data` written as lower-case hex, two characters per byte
/// (`result_str` encodes the 64 result bytes with rustc-serialize's `to_hex`).
#[verifier::external_body]
pub(crate) fn sha512_result_str(data: &[u8]) -> (hex: String)
    ensures
        hex@ == crate::addresser::hex_of_bytes(sha512_digest(data@)),
        hex@.len() == 128,
{
    let mut sha = Sha512::new();
    sha.input(data);
    sha.result_str()
}

} // verus!
