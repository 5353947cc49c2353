//! Salted hashes.

use vstd::prelude::*;
use vstd::utf8::encode_utf8;
use crate::text::{hex, to_hex};
use rand::RngCore;
use sha2::Digest;

verus! {

/// The SHA-256 digest of `data`.
pub uninterp spec fn sha256(data: Seq<u8>) -> Seq<u8>;

/// `sha2::Sha256::digest`: 32 bytes that are a function of the hashed bytes
/// alone.
#[verifier::external_body]
pub(crate) fn sha256_digest(data: &[u8]) -> (digest: [u8; 32])
    ensures
        digest@ == sha256(data@),
{
    sha2::Sha256::digest(data).into()
}

/// `rand::thread_rng` with `RngCore::fill_bytes`: 32 bytes drawn at random, of
/// which nothing is known.
#[verifier::external_body]
pub(crate) fn random_bytes() -> (bytes: [u8; 32])
{
    let mut bytes = [0u8; 32];
    rand::thread_rng().fill_bytes(&mut bytes);
    bytes
}

/// Random salt of one process. The same identifier correlates under one salt;
/// hashes under two salts do not.
pub struct Salt {
    pub bytes: [u8; 32],
}

impl View for Salt {
    type V = Seq<u8>;

    open spec fn view(&self) -> Seq<u8> {
        self.bytes@
    }
}

/// Draws the salt of a process. Which one comes out is left to chance: any 32
/// bytes can, and two draws are not promised to differ. What is hashed under a
/// salt is stated for every salt.
pub fn process_salt() -> (salt: Salt)
    ensures
        salt@.len() == 32,
{
    Salt { bytes: random_bytes() }
}

/// A list of bytes followed by another.
pub(crate) fn push_bytes(buffer: &mut Vec<u8>, more: &[u8])
    ensures
        final(buffer)@ == old(buffer)@ + more@,
{
    let mut i: usize = 0;
    while i < more.len()
        invariant
            i <= more@.len(),
            buffer@ == old(buffer)@ + more@.take(i as int),
        decreases more@.len() - i,
    {
        buffer.push(more[i]);
        i += 1;
        assert(buffer@ =~= old(buffer)@ + more@.take(i as int));
    }
    assert(more@.take(i as int) =~= more@);
}

/// A copy of a list of bytes.
pub(crate) fn bytes_copy(bytes: &[u8]) -> (copy: Vec<u8>)
    ensures
        copy@ == bytes@,
{
    let mut copy: Vec<u8> = Vec::new();
    push_bytes(&mut copy, bytes);
    assert(copy@ =~= bytes@);
    copy
}

/// Whether a character is a lower-case hexadecimal digit.
pub open spec fn is_hex_digit(c: char) -> bool {
    '0' <= c <= '9' || 'a' <= c <= 'f'
}

/// First 16 hex chars of the salted SHA-256 of `s`.
pub open spec fn short_hash_of(salt: Seq<u8>, s: Seq<char>) -> Seq<char> {
    hex(sha256(salt + encode_utf8(s))).take(16)
}

/// First 16 hex chars of salted SHA-256. Used for hashed identifiers and dynamic
/// path segments only.
pub fn short_hash(salt: &Salt, s: &str) -> (hash: String)
    ensures
        hash@ == short_hash_of(salt@, s@),
        hash@.len() == 16,
        forall|i: int| 0 <= i < 16 ==> is_hex_digit(#[trigger] hash@[i]),
{
    let mut input: Vec<u8> = bytes_copy(&salt.bytes);
    push_bytes(&mut input, s.as_bytes());
    let digest = sha256_digest(input.as_slice());
    let mut first: Vec<u8> = Vec::new();
    let mut i: usize = 0;
    while i < 8
        invariant
            i <= 8,
            first@ == digest@.take(i as int),
        decreases 8 - i,
    {
        first.push(digest[i]);
        i += 1;
        assert(first@ =~= digest@.take(i as int));
    }
    let hash = to_hex(first.as_slice());
    assert(hash@ =~= hex(digest@).take(16));
    hash
}

/// SHA-256 of `data`, all 64 hex chars.
pub fn full_sha256_hex(data: &[u8]) -> (s: String)
    ensures
        s@ == hex(sha256(data@)),
        s@.len() == 64,
{
    let digest = sha256_digest(data);
    to_hex(&digest)
}

} // verus!
