//! Keccak-256 and the byte-string helpers built on it.

use vstd::prelude::*;

verus! {

/// Number of bytes in a digest.
pub const DIGEST_LEN: usize = 32;

/// The Keccak-256 digest of a byte string.
///
/// The function itself is not defined here: it stands for what
/// `solana_program::keccak::hash` computes.
pub uninterp spec fn keccak256(data: Seq<u8>) -> Seq<u8>;

/// The digest of the concatenation `left || right`.
pub open spec fn hash_pair(left: Seq<u8>, right: Seq<u8>) -> Seq<u8> {
    keccak256(left + right)
}

/// The all-zero digest that stands for an empty node.
pub open spec fn empty_node() -> Seq<u8> {
    Seq::new(DIGEST_LEN as nat, |i: int| 0u8)
}

/// Calls `solana_program::keccak::hash` and copies the 32 bytes of the
/// `Hash` it returns. Trusted: the result is the Keccak-256 digest of
/// `data`, a function of the bytes alone, and is 32 bytes long.
#[verifier::external_body]
pub(crate) fn keccak(data: &[u8]) -> (digest: Vec<u8>)
    ensures
        digest@ == keccak256(data@),
        digest@.len() == DIGEST_LEN,
{
    solana_program::keccak::hash(data).to_bytes().to_vec()
}

/// Hashes `left || right`.
pub(crate) fn hash_two(left: &[u8], right: &[u8]) -> (digest: Vec<u8>)
    ensures
        digest@ == hash_pair(left@, right@),
        digest@.len() == DIGEST_LEN,
{
    let mut buffer: Vec<u8> = Vec::new();
    buffer.extend_from_slice(left);
    buffer.extend_from_slice(right);
    assert(buffer@ =~= left@ + right@);
    keccak(buffer.as_slice())
}

/// A fresh all-zero digest.
pub(crate) fn zero_digest() -> (digest: Vec<u8>)
    ensures
        digest@ == empty_node(),
{
    let mut digest: Vec<u8> = Vec::new();
    let mut i: usize = 0;
    while i < DIGEST_LEN
        invariant
            i <= DIGEST_LEN,
            digest@.len() == i,
            forall|j: int| 0 <= j < i ==> digest@[j] == 0u8,
        decreases DIGEST_LEN - i,
    {
        digest.push(0u8);
        i += 1;
    }
    digest
}

/// Whether two byte strings are the same.
pub(crate) fn bytes_equal(a: &[u8], b: &[u8]) -> (same: bool)
    ensures
        same == (a@ == b@),
{
    if a.len() != b.len() {
        return false;
    }
    let mut i: usize = 0;
    while i < a.len()
        invariant
            i <= a.len(),
            a.len() == b.len(),
            forall|j: int| 0 <= j < i ==> a@[j] == b@[j],
        decreases a.len() - i,
    {
        if a[i] != b[i] {
            return false;
        }
        i += 1;
    }
    assert(a@ =~= b@);
    true
}

/// An owned copy of a byte string.
pub(crate) fn copy_bytes(source: &[u8]) -> (copy: Vec<u8>)
    ensures
        copy@ == source@,
{
    let mut copy: Vec<u8> = Vec::new();
    copy.extend_from_slice(source);
    copy
}

} // verus!
