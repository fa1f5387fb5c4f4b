//! The 128-bit content hash under which lexical strings are stored in the
//! dictionary and referenced from encoded terms.

use vstd::prelude::*;

verus! {

/// The 128-bit hash of a lexical string. The hash is a pure function of the
/// characters alone; nothing further is assumed of it, so two distinct
/// strings may collide, and the dictionary detects that case at write time.
pub uninterp spec fn str_hash(s: Seq<char>) -> u128;

/// Relies on md5::compute: the digest is a pure function of the input bytes
/// alone; the sixteen digest bytes are read back as one 128-bit value.
#[verifier::external_body]
fn compute_str_hash(value: &str) -> (r: u128)
    ensures
        r == str_hash(value@),
{
    u128::from_le_bytes(md5::compute(value.as_bytes()).0)
}

/// A 128-bit string hash, the key type of the dictionary.
#[derive(Clone, Copy, Debug, PartialEq, Eq, Structural)]
pub struct StrHash {
    /// The hash value.
    pub hash: u128,
}

impl StrHash {
    /// Hashes a lexical string.
    pub fn new(value: &str) -> (r: StrHash)
        ensures
            r.hash == str_hash(value@),
    {
        StrHash { hash: compute_str_hash(value) }
    }
}

} // verus!
