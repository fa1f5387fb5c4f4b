//! A dictionary-encoded RDF quad store.
//!
//! RDF terms are encoded into fixed-width byte records; lexical strings are
//! kept once in a content-addressed dictionary keyed by a 128-bit hash, and
//! every quad is stored under six index permutations so that any access
//! pattern over `(subject, predicate, object, graph)` is answered by a
//! single prefix scan.

use vstd::prelude::*;

pub mod abi;
pub mod codec;
pub mod dict;
pub mod encoded;
pub mod hash;
pub mod lexical;
pub mod model;
pub mod service;
pub mod store;
pub mod transaction;
pub mod wire;

verus! {

/// The error taxonomy of the store.
#[derive(Clone, Copy, Debug, PartialEq, Eq, Structural)]
pub enum Error {
    /// Malformed input handed to a constructor: a malformed IRI, an illegal
    /// language tag, or a blank-node label that is not a 128-bit hexadecimal
    /// number.
    InvalidInput,
    /// An encoded term refers to a dictionary hash with no entry.
    Corruption,
    /// Two distinct strings collided on their 128-bit hash.
    HashCollision,
}

/// The abstract state of a store: the set of encoded quads it holds and the
/// dictionary of hashed strings.
pub struct StoreView {
    /// The encoded quads.
    pub quads: Set<crate::encoded::EncodedQuad>,
    /// The dictionary, as a map from hash to string.
    pub strings: Map<u128, Seq<char>>,
}

} // verus!
