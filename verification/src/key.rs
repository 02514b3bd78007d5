//! Content-addressed cache keys: a digest of a file's canonical path, byte
//! length, and modification time, truncated to 16 bytes and hex-encoded.

use vstd::prelude::*;

use sha2::Digest;
use vstd::bytes::{spec_u128_to_le_bytes, spec_u64_to_le_bytes, u128_to_le_bytes, u64_to_le_bytes};
use vstd::utf8::encode_utf8;

use crate::hexcode::hex_of;

verus! {

/// What sha2's SHA-256 returns on an input: a function of the input bytes
/// alone.
pub uninterp spec fn sha256_of(bytes: Seq<u8>) -> Seq<u8>;

/// Relies on sha2::Sha256 (through the digest traits): the digest depends on
/// the input bytes alone and is 32 bytes long.
#[verifier::external_body]
fn sha256_digest(bytes: &Vec<u8>) -> (res: Vec<u8>)
    ensures
        res@ == sha256_of(bytes@),
        res@.len() == 32,
{
    let mut hasher = sha2::Sha256::new();
    hasher.update(bytes.as_slice());
    hasher.finalize().to_vec()
}

/// Relies on hex::encode: two lowercase hexadecimal digits per byte, high
/// nibble first.
#[verifier::external_body]
fn hex_encode(bytes: &Vec<u8>) -> (res: String)
    ensures
        res@ == hex_of(bytes@),
{
    hex::encode(bytes.as_slice())
}

/// The digest input for a file's identity triple: the UTF-8 bytes of the
/// canonical path, then the byte length and the modification time in
/// milliseconds, both little-endian.
pub open spec fn spec_key_message(path: Seq<char>, size: u64, mtime_ms: u128) -> Seq<u8> {
    encode_utf8(path) + spec_u64_to_le_bytes(size) + spec_u128_to_le_bytes(mtime_ms)
}

/// The cache key of a file's identity triple: the first 16 bytes of the
/// SHA-256 digest of the key message, in lowercase hexadecimal.
pub open spec fn spec_cache_key(path: Seq<char>, size: u64, mtime_ms: u128) -> Seq<char> {
    hex_of(sha256_of(spec_key_message(path, size, mtime_ms)).take(16))
}

/// Derives the content-addressed cache key for a file from its canonical
/// absolute path, its byte length, and its modification time in
/// milliseconds. The key is a function of this triple alone, so two
/// derivations for an unchanged file always agree.
pub fn derive_cache_key(canonical_path: &str, size: u64, mtime_ms: u128) -> (res: String)
    ensures
        res@ == spec_cache_key(canonical_path@, size, mtime_ms),
        res@.len() == 32,
{
    let mut message = canonical_path.as_bytes_vec();
    let mut size_bytes = u64_to_le_bytes(size);
    let mut time_bytes = u128_to_le_bytes(mtime_ms);
    message.append(&mut size_bytes);
    message.append(&mut time_bytes);
    proof {
        assert(message@ =~= spec_key_message(canonical_path@, size, mtime_ms));
    }
    let mut digest = sha256_digest(&message);
    digest.truncate(16);
    proof {
        assert(digest@ =~= sha256_of(spec_key_message(canonical_path@, size, mtime_ms)).take(16));
    }
    hex_encode(&digest)
}

/// Law: key determinism. The cache key is a function of the identity triple
/// alone, so two derivations for the same canonical path, byte length, and
/// modification time always agree, in any process and at any time.
pub proof fn lemma_key_determinism(
    path1: Seq<char>,
    path2: Seq<char>,
    size1: u64,
    size2: u64,
    mtime1: u128,
    mtime2: u128,
)
    requires
        path1 == path2,
        size1 == size2,
        mtime1 == mtime2,
    ensures
        spec_cache_key(path1, size1, mtime1) == spec_cache_key(path2, size2, mtime2),
{
}

} // verus!
