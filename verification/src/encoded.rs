//! Encoded terms and encoded quads: the fixed-width wire form of RDF terms
//! and the six index-key layouts built from it.
//!
//! Every encoded term serializes to exactly [`WRITTEN_TERM_MAX_SIZE`] bytes:
//! a leading tag byte, the payload, and zero padding. Keeping every term at
//! the same width makes an index key the plain concatenation of four term
//! blocks, so that bytewise prefix matching coincides with componentwise
//! equality on the leading terms of the permutation.

use vstd::prelude::*;

use crate::Error;
use crate::wire::{
    i64_bits, i64_from_bits, i64_of_bits, i64_to_bits, lemma_i64_bits_round_trip,
    lemma_lex_lt_blocks, lex_lt,
    lemma_u64_le_round_trip, lemma_u128_le_round_trip, push_u64_le, push_u128_le, push_zero_bytes,
    read_u64_le, read_u128_le, u64_from_le_bytes, u64_le_bytes, u128_from_le_bytes, u128_le_bytes,
    zero_bytes,
};

verus! {

/// The width in bytes of every serialized term block.
pub const WRITTEN_TERM_MAX_SIZE: usize = 33;

/// Tag byte of the default graph.
pub const TYPE_DEFAULT_GRAPH_ID: u8 = 0;

/// Tag byte of a named node stored by the hash of its IRI.
pub const TYPE_NAMED_NODE_ID: u8 = 1;

/// Tag byte of a blank node stored by its 128-bit id.
pub const TYPE_BLANK_NODE_ID: u8 = 2;

/// Tag byte of a simple literal stored by the hash of its lexical form.
pub const TYPE_STRING_LITERAL_ID: u8 = 3;

/// Tag byte of a language-tagged literal: value hash then language hash.
pub const TYPE_LANG_STRING_LITERAL_ID: u8 = 4;

/// Tag byte of a typed literal: value hash then datatype IRI hash.
pub const TYPE_TYPED_LITERAL_ID: u8 = 5;

/// Tag byte of the inlined boolean literal `true`.
pub const TYPE_BOOLEAN_LITERAL_TRUE: u8 = 6;

/// Tag byte of the inlined boolean literal `false`.
pub const TYPE_BOOLEAN_LITERAL_FALSE: u8 = 7;

/// Tag byte of an inlined 64-bit integer literal.
pub const TYPE_INTEGER_LITERAL: u8 = 8;

/// An RDF term in its dictionary-encoded form. Hashed variants carry the
/// 128-bit hash of the lexical string they stand for; inlined variants carry
/// the value itself.
#[derive(Clone, Copy, Debug, PartialEq, Eq, Structural)]
pub enum EncodedTerm {
    /// The default graph; only valid in the graph slot.
    DefaultGraph,
    /// A named node, by the hash of its IRI.
    NamedNode { iri_id: u128 },
    /// A blank node, by its 128-bit id.
    BlankNode { id: u128 },
    /// A simple (`xsd:string`) literal, by the hash of its lexical form.
    StringLiteral { value_id: u128 },
    /// A language-tagged literal, by the hashes of value and language tag.
    LangStringLiteral { value_id: u128, language_id: u128 },
    /// A typed literal, by the hashes of value and datatype IRI.
    TypedLiteral { value_id: u128, datatype_id: u128 },
    /// An inlined `xsd:boolean` literal.
    BooleanLiteral { value: bool },
    /// An inlined `xsd:integer` literal whose value fits in 64 bits.
    IntegerLiteral { value: i64 },
}

/// The encoded form of the default graph.
pub const ENCODED_DEFAULT_GRAPH: EncodedTerm = EncodedTerm::DefaultGraph;

/// A quad of encoded terms, fields always in logical order.
#[derive(Clone, Copy, Debug, PartialEq, Eq, Structural)]
pub struct EncodedQuad {
    /// The subject term.
    pub subject: EncodedTerm,
    /// The predicate term.
    pub predicate: EncodedTerm,
    /// The object term.
    pub object: EncodedTerm,
    /// The graph term; `DefaultGraph` for the default graph.
    pub graph_name: EncodedTerm,
}

impl EncodedQuad {
    /// Builds a quad from its four components.
    pub fn new(
        subject: EncodedTerm,
        predicate: EncodedTerm,
        object: EncodedTerm,
        graph_name: EncodedTerm,
    ) -> (r: EncodedQuad)
        ensures
            r == (EncodedQuad { subject, predicate, object, graph_name }),
    {
        EncodedQuad { subject, predicate, object, graph_name }
    }
}

/// The serialized block of one encoded term: tag byte, payload, zero padding
/// up to [`WRITTEN_TERM_MAX_SIZE`] bytes.
pub open spec fn term_bytes(t: EncodedTerm) -> Seq<u8> {
    match t {
        EncodedTerm::DefaultGraph => seq![TYPE_DEFAULT_GRAPH_ID] + zero_bytes(32),
        EncodedTerm::NamedNode { iri_id } => seq![TYPE_NAMED_NODE_ID] + u128_le_bytes(iri_id)
            + zero_bytes(16),
        EncodedTerm::BlankNode { id } => seq![TYPE_BLANK_NODE_ID] + u128_le_bytes(id) + zero_bytes(
            16,
        ),
        EncodedTerm::StringLiteral { value_id } => seq![TYPE_STRING_LITERAL_ID] + u128_le_bytes(
            value_id,
        ) + zero_bytes(16),
        EncodedTerm::LangStringLiteral { value_id, language_id } => seq![
            TYPE_LANG_STRING_LITERAL_ID,
        ] + u128_le_bytes(value_id) + u128_le_bytes(language_id),
        EncodedTerm::TypedLiteral { value_id, datatype_id } => seq![TYPE_TYPED_LITERAL_ID]
            + u128_le_bytes(value_id) + u128_le_bytes(datatype_id),
        EncodedTerm::BooleanLiteral { value } => seq![
            if value {
                TYPE_BOOLEAN_LITERAL_TRUE
            } else {
                TYPE_BOOLEAN_LITERAL_FALSE
            },
        ] + zero_bytes(32),
        EncodedTerm::IntegerLiteral { value } => seq![TYPE_INTEGER_LITERAL] + u64_le_bytes(
            i64_bits(value),
        ) + zero_bytes(24),
    }
}

/// Every term block has the fixed width.
pub proof fn lemma_term_bytes_len(t: EncodedTerm)
    ensures
        term_bytes(t).len() == WRITTEN_TERM_MAX_SIZE,
{
}

/// What a 33-byte block denotes: `None` when the tag byte is unknown.
pub open spec fn read_term_spec(b: Seq<u8>) -> Option<EncodedTerm>
    recommends
        b.len() == WRITTEN_TERM_MAX_SIZE,
{
    if b[0] == TYPE_DEFAULT_GRAPH_ID {
        Some(EncodedTerm::DefaultGraph)
    } else if b[0] == TYPE_NAMED_NODE_ID {
        Some(EncodedTerm::NamedNode { iri_id: u128_from_le_bytes(b.subrange(1, 17)) })
    } else if b[0] == TYPE_BLANK_NODE_ID {
        Some(EncodedTerm::BlankNode { id: u128_from_le_bytes(b.subrange(1, 17)) })
    } else if b[0] == TYPE_STRING_LITERAL_ID {
        Some(EncodedTerm::StringLiteral { value_id: u128_from_le_bytes(b.subrange(1, 17)) })
    } else if b[0] == TYPE_LANG_STRING_LITERAL_ID {
        Some(
            EncodedTerm::LangStringLiteral {
                value_id: u128_from_le_bytes(b.subrange(1, 17)),
                language_id: u128_from_le_bytes(b.subrange(17, 33)),
            },
        )
    } else if b[0] == TYPE_TYPED_LITERAL_ID {
        Some(
            EncodedTerm::TypedLiteral {
                value_id: u128_from_le_bytes(b.subrange(1, 17)),
                datatype_id: u128_from_le_bytes(b.subrange(17, 33)),
            },
        )
    } else if b[0] == TYPE_BOOLEAN_LITERAL_TRUE {
        Some(EncodedTerm::BooleanLiteral { value: true })
    } else if b[0] == TYPE_BOOLEAN_LITERAL_FALSE {
        Some(EncodedTerm::BooleanLiteral { value: false })
    } else if b[0] == TYPE_INTEGER_LITERAL {
        Some(
            EncodedTerm::IntegerLiteral { value: i64_from_bits(u64_from_le_bytes(b.subrange(1, 9))) },
        )
    } else {
        None
    }
}

/// Reading back a serialized term block recovers the term.
pub proof fn lemma_read_term_bytes(t: EncodedTerm)
    ensures
        read_term_spec(term_bytes(t)) == Some(t),
{
    let b = term_bytes(t);
    match t {
        EncodedTerm::DefaultGraph => {},
        EncodedTerm::NamedNode { iri_id } => {
            assert(b.subrange(1, 17) =~= u128_le_bytes(iri_id));
            lemma_u128_le_round_trip(iri_id);
        },
        EncodedTerm::BlankNode { id } => {
            assert(b.subrange(1, 17) =~= u128_le_bytes(id));
            lemma_u128_le_round_trip(id);
        },
        EncodedTerm::StringLiteral { value_id } => {
            assert(b.subrange(1, 17) =~= u128_le_bytes(value_id));
            lemma_u128_le_round_trip(value_id);
        },
        EncodedTerm::LangStringLiteral { value_id, language_id } => {
            assert(b.subrange(1, 17) =~= u128_le_bytes(value_id));
            assert(b.subrange(17, 33) =~= u128_le_bytes(language_id));
            lemma_u128_le_round_trip(value_id);
            lemma_u128_le_round_trip(language_id);
        },
        EncodedTerm::TypedLiteral { value_id, datatype_id } => {
            assert(b.subrange(1, 17) =~= u128_le_bytes(value_id));
            assert(b.subrange(17, 33) =~= u128_le_bytes(datatype_id));
            lemma_u128_le_round_trip(value_id);
            lemma_u128_le_round_trip(datatype_id);
        },
        EncodedTerm::BooleanLiteral { value } => {},
        EncodedTerm::IntegerLiteral { value } => {
            assert(b.subrange(1, 9) =~= u64_le_bytes(i64_bits(value)));
            lemma_u64_le_round_trip(i64_bits(value));
            lemma_i64_bits_round_trip(value);
        },
    }
}

/// Serialization is injective: equal blocks come from equal terms. This is
/// what makes byte equality of keys coincide with RDF term equality at the
/// encoded level.
pub proof fn lemma_term_bytes_injective(a: EncodedTerm, b: EncodedTerm)
    requires
        term_bytes(a) == term_bytes(b),
    ensures
        a == b,
{
    lemma_read_term_bytes(a);
    lemma_read_term_bytes(b);
}

/// Appends the serialized block of `term` to `buffer`.
pub fn write_term(buffer: &mut Vec<u8>, term: EncodedTerm)
    ensures
        final(buffer)@ == old(buffer)@ + term_bytes(term),
{
    let ghost prefix = buffer@;
    match term {
        EncodedTerm::DefaultGraph => {
            buffer.push(TYPE_DEFAULT_GRAPH_ID);
            push_zero_bytes(buffer, 32);
            proof {
                assert(buffer@ =~= prefix + term_bytes(term));
            }
        },
        EncodedTerm::NamedNode { iri_id } => {
            buffer.push(TYPE_NAMED_NODE_ID);
            push_u128_le(buffer, iri_id);
            push_zero_bytes(buffer, 16);
            proof {
                assert(buffer@ =~= prefix + term_bytes(term));
            }
        },
        EncodedTerm::BlankNode { id } => {
            buffer.push(TYPE_BLANK_NODE_ID);
            push_u128_le(buffer, id);
            push_zero_bytes(buffer, 16);
            proof {
                assert(buffer@ =~= prefix + term_bytes(term));
            }
        },
        EncodedTerm::StringLiteral { value_id } => {
            buffer.push(TYPE_STRING_LITERAL_ID);
            push_u128_le(buffer, value_id);
            push_zero_bytes(buffer, 16);
            proof {
                assert(buffer@ =~= prefix + term_bytes(term));
            }
        },
        EncodedTerm::LangStringLiteral { value_id, language_id } => {
            buffer.push(TYPE_LANG_STRING_LITERAL_ID);
            push_u128_le(buffer, value_id);
            push_u128_le(buffer, language_id);
            proof {
                assert(buffer@ =~= prefix + term_bytes(term));
            }
        },
        EncodedTerm::TypedLiteral { value_id, datatype_id } => {
            buffer.push(TYPE_TYPED_LITERAL_ID);
            push_u128_le(buffer, value_id);
            push_u128_le(buffer, datatype_id);
            proof {
                assert(buffer@ =~= prefix + term_bytes(term));
            }
        },
        EncodedTerm::BooleanLiteral { value } => {
            if value {
                buffer.push(TYPE_BOOLEAN_LITERAL_TRUE);
            } else {
                buffer.push(TYPE_BOOLEAN_LITERAL_FALSE);
            }
            push_zero_bytes(buffer, 32);
            proof {
                assert(buffer@ =~= prefix + term_bytes(term));
            }
        },
        EncodedTerm::IntegerLiteral { value } => {
            buffer.push(TYPE_INTEGER_LITERAL);
            let bits = i64_to_bits(value);
            push_u64_le(buffer, bits);
            push_zero_bytes(buffer, 24);
            proof {
                assert(buffer@ =~= prefix + term_bytes(term));
            }
        },
    }
}

/// Reads the term block at `offset`; fails on an unknown tag byte.
pub fn read_term(key: &Vec<u8>, offset: usize) -> (r: Result<EncodedTerm, Error>)
    requires
        offset + WRITTEN_TERM_MAX_SIZE <= key@.len(),
    ensures
        (r matches Ok(t) ==> read_term_spec(
            key@.subrange(offset as int, offset + WRITTEN_TERM_MAX_SIZE),
        ) == Some(t)),
        (r is Err ==> read_term_spec(
            key@.subrange(offset as int, offset + WRITTEN_TERM_MAX_SIZE),
        ) is None),
{
    let key_len: usize = key.len();
    proof {
        assert(offset + 33 <= key_len);
    }
    let ghost block = key@.subrange(offset as int, offset + WRITTEN_TERM_MAX_SIZE);
    proof {
        assert(forall|i: int| 0 <= i < 33 ==> block[i] == key@[offset + i]);
    }
    let tag = key[offset];
    if tag == TYPE_DEFAULT_GRAPH_ID {
        Ok(EncodedTerm::DefaultGraph)
    } else if tag == TYPE_NAMED_NODE_ID {
        let iri_id = read_u128_le(key, offset + 1);
        proof {
            assert(key@.subrange(offset + 1, offset + 17) =~= block.subrange(1, 17));
        }
        Ok(EncodedTerm::NamedNode { iri_id })
    } else if tag == TYPE_BLANK_NODE_ID {
        let id = read_u128_le(key, offset + 1);
        proof {
            assert(key@.subrange(offset + 1, offset + 17) =~= block.subrange(1, 17));
        }
        Ok(EncodedTerm::BlankNode { id })
    } else if tag == TYPE_STRING_LITERAL_ID {
        let value_id = read_u128_le(key, offset + 1);
        proof {
            assert(key@.subrange(offset + 1, offset + 17) =~= block.subrange(1, 17));
        }
        Ok(EncodedTerm::StringLiteral { value_id })
    } else if tag == TYPE_LANG_STRING_LITERAL_ID {
        let value_id = read_u128_le(key, offset + 1);
        let language_id = read_u128_le(key, offset + 17);
        proof {
            assert(key@.subrange(offset + 1, offset + 17) =~= block.subrange(1, 17));
            assert(key@.subrange(offset + 17, offset + 33) =~= block.subrange(17, 33));
        }
        Ok(EncodedTerm::LangStringLiteral { value_id, language_id })
    } else if tag == TYPE_TYPED_LITERAL_ID {
        let value_id = read_u128_le(key, offset + 1);
        let datatype_id = read_u128_le(key, offset + 17);
        proof {
            assert(key@.subrange(offset + 1, offset + 17) =~= block.subrange(1, 17));
            assert(key@.subrange(offset + 17, offset + 33) =~= block.subrange(17, 33));
        }
        Ok(EncodedTerm::TypedLiteral { value_id, datatype_id })
    } else if tag == TYPE_BOOLEAN_LITERAL_TRUE {
        Ok(EncodedTerm::BooleanLiteral { value: true })
    } else if tag == TYPE_BOOLEAN_LITERAL_FALSE {
        Ok(EncodedTerm::BooleanLiteral { value: false })
    } else if tag == TYPE_INTEGER_LITERAL {
        let bits = read_u64_le(key, offset + 1);
        proof {
            assert(key@.subrange(offset + 1, offset + 9) =~= block.subrange(1, 9));
        }
        Ok(EncodedTerm::IntegerLiteral { value: i64_of_bits(bits) })
    } else {
        Err(Error::Corruption)
    }
}

/// The concatenation of four term blocks in a given order.
pub open spec fn quad_key_bytes(
    t1: EncodedTerm,
    t2: EncodedTerm,
    t3: EncodedTerm,
    t4: EncodedTerm,
) -> Seq<u8> {
    term_bytes(t1) + term_bytes(t2) + term_bytes(t3) + term_bytes(t4)
}

/// The index key of a quad in subject-predicate-object-graph order.
pub open spec fn spog_bytes(q: EncodedQuad) -> Seq<u8> {
    quad_key_bytes(q.subject, q.predicate, q.object, q.graph_name)
}

/// The index key of a quad in predicate-object-subject-graph order.
pub open spec fn posg_bytes(q: EncodedQuad) -> Seq<u8> {
    quad_key_bytes(q.predicate, q.object, q.subject, q.graph_name)
}

/// The index key of a quad in object-subject-predicate-graph order.
pub open spec fn ospg_bytes(q: EncodedQuad) -> Seq<u8> {
    quad_key_bytes(q.object, q.subject, q.predicate, q.graph_name)
}

/// The index key of a quad in graph-subject-predicate-object order.
pub open spec fn gspo_bytes(q: EncodedQuad) -> Seq<u8> {
    quad_key_bytes(q.graph_name, q.subject, q.predicate, q.object)
}

/// The index key of a quad in graph-predicate-object-subject order.
pub open spec fn gpos_bytes(q: EncodedQuad) -> Seq<u8> {
    quad_key_bytes(q.graph_name, q.predicate, q.object, q.subject)
}

/// The index key of a quad in graph-object-subject-predicate order.
pub open spec fn gosp_bytes(q: EncodedQuad) -> Seq<u8> {
    quad_key_bytes(q.graph_name, q.object, q.subject, q.predicate)
}

/// The blocks of a quad key can be recovered by position.
pub proof fn lemma_quad_key_blocks(t1: EncodedTerm, t2: EncodedTerm, t3: EncodedTerm, t4: EncodedTerm)
    ensures
        quad_key_bytes(t1, t2, t3, t4).len() == 132,
        quad_key_bytes(t1, t2, t3, t4).subrange(0, 33) =~= term_bytes(t1),
        quad_key_bytes(t1, t2, t3, t4).subrange(33, 66) =~= term_bytes(t2),
        quad_key_bytes(t1, t2, t3, t4).subrange(66, 99) =~= term_bytes(t3),
        quad_key_bytes(t1, t2, t3, t4).subrange(99, 132) =~= term_bytes(t4),
{
    let k = quad_key_bytes(t1, t2, t3, t4);
    assert(k.subrange(0, 33) =~= term_bytes(t1));
    assert(k.subrange(33, 66) =~= term_bytes(t2));
    assert(k.subrange(66, 99) =~= term_bytes(t3));
    assert(k.subrange(99, 132) =~= term_bytes(t4));
}

/// Quad keys are injective in all four components.
pub proof fn lemma_quad_key_injective(
    a1: EncodedTerm,
    a2: EncodedTerm,
    a3: EncodedTerm,
    a4: EncodedTerm,
    b1: EncodedTerm,
    b2: EncodedTerm,
    b3: EncodedTerm,
    b4: EncodedTerm,
)
    requires
        quad_key_bytes(a1, a2, a3, a4) == quad_key_bytes(b1, b2, b3, b4),
    ensures
        a1 == b1 && a2 == b2 && a3 == b3 && a4 == b4,
{
    lemma_quad_key_blocks(a1, a2, a3, a4);
    lemma_quad_key_blocks(b1, b2, b3, b4);
    lemma_term_bytes_injective(a1, b1);
    lemma_term_bytes_injective(a2, b2);
    lemma_term_bytes_injective(a3, b3);
    lemma_term_bytes_injective(a4, b4);
}

/// A one-term prefix matches a quad key exactly when the first component of
/// the permutation is that term.
pub proof fn lemma_quad_key_prefix_1(
    c1: EncodedTerm,
    t1: EncodedTerm,
    t2: EncodedTerm,
    t3: EncodedTerm,
    t4: EncodedTerm,
)
    ensures
        term_bytes(c1).is_prefix_of(quad_key_bytes(t1, t2, t3, t4)) <==> c1 == t1,
{
    let k = quad_key_bytes(t1, t2, t3, t4);
    lemma_quad_key_blocks(t1, t2, t3, t4);
    lemma_term_bytes_len(c1);
    lemma_term_bytes_len(t1);
    if term_bytes(c1).is_prefix_of(k) {
        assert(term_bytes(c1) =~= k.subrange(0, 33));
        lemma_term_bytes_injective(c1, t1);
    }
    if c1 == t1 {
        assert(term_bytes(c1) =~= k.subrange(0, term_bytes(c1).len() as int));
    }
}

/// A two-term prefix matches a quad key exactly when the first two
/// components of the permutation are those terms.
pub proof fn lemma_quad_key_prefix_2(
    c1: EncodedTerm,
    c2: EncodedTerm,
    t1: EncodedTerm,
    t2: EncodedTerm,
    t3: EncodedTerm,
    t4: EncodedTerm,
)
    ensures
        (term_bytes(c1) + term_bytes(c2)).is_prefix_of(quad_key_bytes(t1, t2, t3, t4)) <==> (c1
            == t1 && c2 == t2),
{
    let k = quad_key_bytes(t1, t2, t3, t4);
    let p = term_bytes(c1) + term_bytes(c2);
    lemma_quad_key_blocks(t1, t2, t3, t4);
    lemma_term_bytes_len(c1);
    lemma_term_bytes_len(c2);
    if p.is_prefix_of(k) {
        assert(p == k.subrange(0, 66));
        assert(term_bytes(c1) =~= k.subrange(0, 33));
        assert forall|j: int| 0 <= j < 33 implies term_bytes(c2)[j] == k.subrange(33, 66)[j] by {
            assert(p[33 + j] == term_bytes(c2)[j]);
            assert(p[33 + j] == k.subrange(0, 66)[33 + j]);
        }
        assert(term_bytes(c2) =~= k.subrange(33, 66));
        lemma_term_bytes_injective(c1, t1);
        lemma_term_bytes_injective(c2, t2);
    }
    if c1 == t1 && c2 == t2 {
        assert(p =~= k.subrange(0, p.len() as int));
    }
}

/// A three-term prefix matches a quad key exactly when the first three
/// components of the permutation are those terms.
pub proof fn lemma_quad_key_prefix_3(
    c1: EncodedTerm,
    c2: EncodedTerm,
    c3: EncodedTerm,
    t1: EncodedTerm,
    t2: EncodedTerm,
    t3: EncodedTerm,
    t4: EncodedTerm,
)
    ensures
        (term_bytes(c1) + term_bytes(c2) + term_bytes(c3)).is_prefix_of(
            quad_key_bytes(t1, t2, t3, t4),
        ) <==> (c1 == t1 && c2 == t2 && c3 == t3),
{
    let k = quad_key_bytes(t1, t2, t3, t4);
    let p = term_bytes(c1) + term_bytes(c2) + term_bytes(c3);
    lemma_quad_key_blocks(t1, t2, t3, t4);
    lemma_term_bytes_len(c1);
    lemma_term_bytes_len(c2);
    lemma_term_bytes_len(c3);
    if p.is_prefix_of(k) {
        assert(p == k.subrange(0, 99));
        assert(term_bytes(c1) =~= k.subrange(0, 33));
        assert forall|j: int| 0 <= j < 33 implies term_bytes(c2)[j] == k.subrange(33, 66)[j] by {
            assert(p[33 + j] == term_bytes(c2)[j]);
            assert(p[33 + j] == k.subrange(0, 99)[33 + j]);
        }
        assert(term_bytes(c2) =~= k.subrange(33, 66));
        assert forall|j: int| 0 <= j < 33 implies term_bytes(c3)[j] == k.subrange(66, 99)[j] by {
            assert(p[66 + j] == term_bytes(c3)[j]);
            assert(p[66 + j] == k.subrange(0, 99)[66 + j]);
        }
        assert(term_bytes(c3) =~= k.subrange(66, 99));
        lemma_term_bytes_injective(c1, t1);
        lemma_term_bytes_injective(c2, t2);
        lemma_term_bytes_injective(c3, t3);
    }
    if c1 == t1 && c2 == t2 && c3 == t3 {
        assert(p =~= k.subrange(0, p.len() as int));
    }
}

/// Appends the SPOG key of a quad to `buffer`.
pub fn write_spog_quad(buffer: &mut Vec<u8>, quad: &EncodedQuad)
    ensures
        final(buffer)@ == old(buffer)@ + spog_bytes(*quad),
{
    write_term(buffer, quad.subject);
    write_term(buffer, quad.predicate);
    write_term(buffer, quad.object);
    write_term(buffer, quad.graph_name);
    proof {
        assert(buffer@ =~= old(buffer)@ + spog_bytes(*quad));
    }
}

/// Appends the POSG key of a quad to `buffer`.
pub fn write_posg_quad(buffer: &mut Vec<u8>, quad: &EncodedQuad)
    ensures
        final(buffer)@ == old(buffer)@ + posg_bytes(*quad),
{
    write_term(buffer, quad.predicate);
    write_term(buffer, quad.object);
    write_term(buffer, quad.subject);
    write_term(buffer, quad.graph_name);
    proof {
        assert(buffer@ =~= old(buffer)@ + posg_bytes(*quad));
    }
}

/// Appends the OSPG key of a quad to `buffer`.
pub fn write_ospg_quad(buffer: &mut Vec<u8>, quad: &EncodedQuad)
    ensures
        final(buffer)@ == old(buffer)@ + ospg_bytes(*quad),
{
    write_term(buffer, quad.object);
    write_term(buffer, quad.subject);
    write_term(buffer, quad.predicate);
    write_term(buffer, quad.graph_name);
    proof {
        assert(buffer@ =~= old(buffer)@ + ospg_bytes(*quad));
    }
}

/// Appends the GSPO key of a quad to `buffer`.
pub fn write_gspo_quad(buffer: &mut Vec<u8>, quad: &EncodedQuad)
    ensures
        final(buffer)@ == old(buffer)@ + gspo_bytes(*quad),
{
    write_term(buffer, quad.graph_name);
    write_term(buffer, quad.subject);
    write_term(buffer, quad.predicate);
    write_term(buffer, quad.object);
    proof {
        assert(buffer@ =~= old(buffer)@ + gspo_bytes(*quad));
    }
}

/// Appends the GPOS key of a quad to `buffer`.
pub fn write_gpos_quad(buffer: &mut Vec<u8>, quad: &EncodedQuad)
    ensures
        final(buffer)@ == old(buffer)@ + gpos_bytes(*quad),
{
    write_term(buffer, quad.graph_name);
    write_term(buffer, quad.predicate);
    write_term(buffer, quad.object);
    write_term(buffer, quad.subject);
    proof {
        assert(buffer@ =~= old(buffer)@ + gpos_bytes(*quad));
    }
}

/// Appends the GOSP key of a quad to `buffer`.
pub fn write_gosp_quad(buffer: &mut Vec<u8>, quad: &EncodedQuad)
    ensures
        final(buffer)@ == old(buffer)@ + gosp_bytes(*quad),
{
    write_term(buffer, quad.graph_name);
    write_term(buffer, quad.object);
    write_term(buffer, quad.subject);
    write_term(buffer, quad.predicate);
    proof {
        assert(buffer@ =~= old(buffer)@ + gosp_bytes(*quad));
    }
}

/// Reads the four term blocks of a key, in block order.
fn read_quad_blocks(key: &Vec<u8>) -> (r: Result<
    (EncodedTerm, EncodedTerm, EncodedTerm, EncodedTerm),
    Error,
>)
    requires
        key@.len() == 132,
    ensures
        r matches Ok(t) ==> read_term_spec(key@.subrange(0, 33)) == Some(t.0) && read_term_spec(
            key@.subrange(33, 66),
        ) == Some(t.1) && read_term_spec(key@.subrange(66, 99)) == Some(t.2) && read_term_spec(
            key@.subrange(99, 132),
        ) == Some(t.3),
        r is Err ==> (read_term_spec(key@.subrange(0, 33)) is None || read_term_spec(
            key@.subrange(33, 66),
        ) is None || read_term_spec(key@.subrange(66, 99)) is None || read_term_spec(
            key@.subrange(99, 132),
        ) is None),
{
    let b0 = match read_term(key, 0) {
        Ok(t) => t,
        Err(e) => {
            return Err(e);
        },
    };
    let b1 = match read_term(key, 33) {
        Ok(t) => t,
        Err(e) => {
            return Err(e);
        },
    };
    let b2 = match read_term(key, 66) {
        Ok(t) => t,
        Err(e) => {
            return Err(e);
        },
    };
    let b3 = match read_term(key, 99) {
        Ok(t) => t,
        Err(e) => {
            return Err(e);
        },
    };
    Ok((b0, b1, b2, b3))
}

/// Decodes a SPOG key into a quad in logical order.
pub fn read_spog_quad(key: &Vec<u8>) -> (r: Result<EncodedQuad, Error>)
    requires
        key@.len() == 132,
    ensures
        forall|q: EncodedQuad| key@ == spog_bytes(q) ==> r == Ok::<EncodedQuad, Error>(q),
{
    let r = match read_quad_blocks(key) {
        Ok((b0, b1, b2, b3)) => Ok(EncodedQuad::new(b0, b1, b2, b3)),
        Err(e) => Err(e),
    };
    proof {
        assert forall|q: EncodedQuad| key@ == spog_bytes(q) implies r == Ok::<EncodedQuad, Error>(
            q,
        ) by {
            lemma_quad_key_blocks(q.subject, q.predicate, q.object, q.graph_name);
            lemma_read_term_bytes(q.subject);
            lemma_read_term_bytes(q.predicate);
            lemma_read_term_bytes(q.object);
            lemma_read_term_bytes(q.graph_name);
        }
    }
    r
}

/// Decodes a POSG key into a quad in logical order.
pub fn read_posg_quad(key: &Vec<u8>) -> (r: Result<EncodedQuad, Error>)
    requires
        key@.len() == 132,
    ensures
        forall|q: EncodedQuad| key@ == posg_bytes(q) ==> r == Ok::<EncodedQuad, Error>(q),
{
    let r = match read_quad_blocks(key) {
        Ok((b0, b1, b2, b3)) => Ok(EncodedQuad::new(b2, b0, b1, b3)),
        Err(e) => Err(e),
    };
    proof {
        assert forall|q: EncodedQuad| key@ == posg_bytes(q) implies r == Ok::<EncodedQuad, Error>(
            q,
        ) by {
            lemma_quad_key_blocks(q.predicate, q.object, q.subject, q.graph_name);
            lemma_read_term_bytes(q.predicate);
            lemma_read_term_bytes(q.object);
            lemma_read_term_bytes(q.subject);
            lemma_read_term_bytes(q.graph_name);
        }
    }
    r
}

/// Decodes an OSPG key into a quad in logical order.
pub fn read_ospg_quad(key: &Vec<u8>) -> (r: Result<EncodedQuad, Error>)
    requires
        key@.len() == 132,
    ensures
        forall|q: EncodedQuad| key@ == ospg_bytes(q) ==> r == Ok::<EncodedQuad, Error>(q),
{
    let r = match read_quad_blocks(key) {
        Ok((b0, b1, b2, b3)) => Ok(EncodedQuad::new(b1, b2, b0, b3)),
        Err(e) => Err(e),
    };
    proof {
        assert forall|q: EncodedQuad| key@ == ospg_bytes(q) implies r == Ok::<EncodedQuad, Error>(
            q,
        ) by {
            lemma_quad_key_blocks(q.object, q.subject, q.predicate, q.graph_name);
            lemma_read_term_bytes(q.object);
            lemma_read_term_bytes(q.subject);
            lemma_read_term_bytes(q.predicate);
            lemma_read_term_bytes(q.graph_name);
        }
    }
    r
}

/// Decodes a GSPO key into a quad in logical order.
pub fn read_gspo_quad(key: &Vec<u8>) -> (r: Result<EncodedQuad, Error>)
    requires
        key@.len() == 132,
    ensures
        forall|q: EncodedQuad| key@ == gspo_bytes(q) ==> r == Ok::<EncodedQuad, Error>(q),
{
    let r = match read_quad_blocks(key) {
        Ok((b0, b1, b2, b3)) => Ok(EncodedQuad::new(b1, b2, b3, b0)),
        Err(e) => Err(e),
    };
    proof {
        assert forall|q: EncodedQuad| key@ == gspo_bytes(q) implies r == Ok::<EncodedQuad, Error>(
            q,
        ) by {
            lemma_quad_key_blocks(q.graph_name, q.subject, q.predicate, q.object);
            lemma_read_term_bytes(q.graph_name);
            lemma_read_term_bytes(q.subject);
            lemma_read_term_bytes(q.predicate);
            lemma_read_term_bytes(q.object);
        }
    }
    r
}

/// Decodes a GPOS key into a quad in logical order.
pub fn read_gpos_quad(key: &Vec<u8>) -> (r: Result<EncodedQuad, Error>)
    requires
        key@.len() == 132,
    ensures
        forall|q: EncodedQuad| key@ == gpos_bytes(q) ==> r == Ok::<EncodedQuad, Error>(q),
{
    let r = match read_quad_blocks(key) {
        Ok((b0, b1, b2, b3)) => Ok(EncodedQuad::new(b3, b1, b2, b0)),
        Err(e) => Err(e),
    };
    proof {
        assert forall|q: EncodedQuad| key@ == gpos_bytes(q) implies r == Ok::<EncodedQuad, Error>(
            q,
        ) by {
            lemma_quad_key_blocks(q.graph_name, q.predicate, q.object, q.subject);
            lemma_read_term_bytes(q.graph_name);
            lemma_read_term_bytes(q.predicate);
            lemma_read_term_bytes(q.object);
            lemma_read_term_bytes(q.subject);
        }
    }
    r
}

/// Decodes a GOSP key into a quad in logical order.
pub fn read_gosp_quad(key: &Vec<u8>) -> (r: Result<EncodedQuad, Error>)
    requires
        key@.len() == 132,
    ensures
        forall|q: EncodedQuad| key@ == gosp_bytes(q) ==> r == Ok::<EncodedQuad, Error>(q),
{
    let r = match read_quad_blocks(key) {
        Ok((b0, b1, b2, b3)) => Ok(EncodedQuad::new(b2, b3, b1, b0)),
        Err(e) => Err(e),
    };
    proof {
        assert forall|q: EncodedQuad| key@ == gosp_bytes(q) implies r == Ok::<EncodedQuad, Error>(
            q,
        ) by {
            lemma_quad_key_blocks(q.graph_name, q.object, q.subject, q.predicate);
            lemma_read_term_bytes(q.graph_name);
            lemma_read_term_bytes(q.object);
            lemma_read_term_bytes(q.subject);
            lemma_read_term_bytes(q.predicate);
        }
    }
    r
}

/// The key-ordering property: bytewise lexicographic comparison of two
/// quad keys of one permutation equals component-wise comparison of the
/// four encoded terms in that permutation's order. It is this that makes a
/// sorted index column yield its quads in component order and every bound
/// prefix a contiguous range.
pub proof fn lemma_quad_key_order(
    a1: EncodedTerm,
    a2: EncodedTerm,
    a3: EncodedTerm,
    a4: EncodedTerm,
    b1: EncodedTerm,
    b2: EncodedTerm,
    b3: EncodedTerm,
    b4: EncodedTerm,
)
    ensures
        lex_lt(quad_key_bytes(a1, a2, a3, a4), quad_key_bytes(b1, b2, b3, b4)) == (lex_lt(
            term_bytes(a1),
            term_bytes(b1),
        ) || (a1 == b1 && (lex_lt(term_bytes(a2), term_bytes(b2)) || (a2 == b2 && (lex_lt(
            term_bytes(a3),
            term_bytes(b3),
        ) || (a3 == b3 && lex_lt(term_bytes(a4), term_bytes(b4)))))))),
{
    lemma_term_bytes_len(a1);
    lemma_term_bytes_len(b1);
    lemma_term_bytes_len(a2);
    lemma_term_bytes_len(b2);
    let x1 = term_bytes(a1);
    let r1 = term_bytes(a2) + term_bytes(a3) + term_bytes(a4);
    let y1 = term_bytes(b1);
    let s1 = term_bytes(b2) + term_bytes(b3) + term_bytes(b4);
    assert(quad_key_bytes(a1, a2, a3, a4) =~= x1 + r1);
    assert(quad_key_bytes(b1, b2, b3, b4) =~= y1 + s1);
    lemma_lex_lt_blocks(x1, r1, y1, s1);
    if x1 == y1 {
        lemma_term_bytes_injective(a1, b1);
    }
    let x2 = term_bytes(a2);
    let r2 = term_bytes(a3) + term_bytes(a4);
    let y2 = term_bytes(b2);
    let s2 = term_bytes(b3) + term_bytes(b4);
    assert(r1 =~= x2 + r2);
    assert(s1 =~= y2 + s2);
    lemma_lex_lt_blocks(x2, r2, y2, s2);
    if x2 == y2 {
        lemma_term_bytes_injective(a2, b2);
    }
    lemma_term_bytes_len(a3);
    lemma_term_bytes_len(b3);
    lemma_lex_lt_blocks(term_bytes(a3), term_bytes(a4), term_bytes(b3), term_bytes(b4));
    if term_bytes(a3) == term_bytes(b3) {
        lemma_term_bytes_injective(a3, b3);
    }
    if term_bytes(a4) == term_bytes(b4) {
        lemma_term_bytes_injective(a4, b4);
    }
}

} // verus!
