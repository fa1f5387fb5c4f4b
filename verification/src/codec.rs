//! The term codec: turning RDF terms into encoded terms and back.
//!
//! Encoding hashes the lexical strings of a term and stages the
//! hash-to-string pairs for the dictionary; literals of the inlineable
//! datatypes (`xsd:boolean`, and `xsd:integer` when the value fits in 64
//! bits) are parsed and embedded by value instead, which is why numeric
//! literals round-trip in canonical rather than original spelling.
//! Decoding resolves hashes against the dictionary and fails with a
//! corruption error when an entry is missing.

use vstd::prelude::*;
use vstd::string::StrSliceExecFns;

use crate::Error;
use crate::dict::Dictionary;
use crate::encoded::{EncodedQuad, EncodedTerm};
use crate::hash::{StrHash, str_hash};
use crate::lexical::{
    boolean_lexical_value, boolean_to_string, integer_canonical_lexical, integer_lexical_value,
    integer_to_string, parse_boolean, parse_integer, str_eq, valid_boolean_lexical,
    valid_integer_lexical,
};
use crate::model::{
    Literal, LiteralV, NamedNodeBuf, NamedOrBlankNode, NamedOrBlankNodeV, Quad, QuadV, Term, TermV,
    xsd_boolean, xsd_boolean_iri, xsd_integer, xsd_integer_iri,
};

verus! {

/// Whether a typed literal is inlined as a boolean.
pub open spec fn inline_boolean(value: Seq<char>, datatype: Seq<char>) -> bool {
    datatype == xsd_boolean_iri() && valid_boolean_lexical(value)
}

/// Whether a typed literal is inlined as a 64-bit integer.
pub open spec fn inline_integer(value: Seq<char>, datatype: Seq<char>) -> bool {
    datatype == xsd_integer_iri() && valid_integer_lexical(value) && i64::MIN
        <= integer_lexical_value(value) <= i64::MAX
}

/// The encoded form of a literal.
pub open spec fn encoded_literal_of(l: LiteralV) -> EncodedTerm {
    match l {
        LiteralV::Simple { value } => EncodedTerm::StringLiteral { value_id: str_hash(value) },
        LiteralV::LanguageTagged { value, language } => EncodedTerm::LangStringLiteral {
            value_id: str_hash(value),
            language_id: str_hash(language),
        },
        LiteralV::Typed { value, datatype } => {
            if inline_boolean(value, datatype) {
                EncodedTerm::BooleanLiteral { value: boolean_lexical_value(value) }
            } else if inline_integer(value, datatype) {
                EncodedTerm::IntegerLiteral { value: integer_lexical_value(value) as i64 }
            } else {
                EncodedTerm::TypedLiteral {
                    value_id: str_hash(value),
                    datatype_id: str_hash(datatype),
                }
            }
        },
    }
}

/// The encoded form of a subject or graph-name term.
pub open spec fn encoded_named_or_blank_of(t: NamedOrBlankNodeV) -> EncodedTerm {
    match t {
        NamedOrBlankNodeV::NamedNode(iri) => EncodedTerm::NamedNode { iri_id: str_hash(iri) },
        NamedOrBlankNodeV::BlankNode(id) => EncodedTerm::BlankNode { id },
    }
}

/// The encoded form of a term.
pub open spec fn encoded_term_of(t: TermV) -> EncodedTerm {
    match t {
        TermV::NamedNode(iri) => EncodedTerm::NamedNode { iri_id: str_hash(iri) },
        TermV::BlankNode(id) => EncodedTerm::BlankNode { id },
        TermV::Literal(l) => encoded_literal_of(l),
    }
}

/// The encoded form of a graph name; `None` is the default graph.
pub open spec fn encoded_graph_of(g: Option<NamedOrBlankNodeV>) -> EncodedTerm {
    match g {
        Option::None => EncodedTerm::DefaultGraph,
        Option::Some(t) => encoded_named_or_blank_of(t),
    }
}

/// The encoded form of a quad.
pub open spec fn encoded_quad_of(q: QuadV) -> EncodedQuad {
    EncodedQuad {
        subject: encoded_named_or_blank_of(q.subject),
        predicate: EncodedTerm::NamedNode { iri_id: str_hash(q.predicate) },
        object: encoded_term_of(q.object),
        graph_name: encoded_graph_of(q.graph_name),
    }
}

/// The hash-to-string pairs that encoding a literal stages for the
/// dictionary. Inlined literals need no dictionary entry.
pub open spec fn staged_literal(l: LiteralV) -> Seq<(u128, Seq<char>)> {
    match l {
        LiteralV::Simple { value } => seq![(str_hash(value), value)],
        LiteralV::LanguageTagged { value, language } => seq![
            (str_hash(value), value),
            (str_hash(language), language),
        ],
        LiteralV::Typed { value, datatype } => {
            if inline_boolean(value, datatype) || inline_integer(value, datatype) {
                Seq::empty()
            } else {
                seq![(str_hash(value), value), (str_hash(datatype), datatype)]
            }
        },
    }
}

/// The pairs staged for a subject or graph-name term.
pub open spec fn staged_named_or_blank(t: NamedOrBlankNodeV) -> Seq<(u128, Seq<char>)> {
    match t {
        NamedOrBlankNodeV::NamedNode(iri) => seq![(str_hash(iri), iri)],
        NamedOrBlankNodeV::BlankNode(_) => Seq::empty(),
    }
}

/// The pairs staged for a term.
pub open spec fn staged_term(t: TermV) -> Seq<(u128, Seq<char>)> {
    match t {
        TermV::NamedNode(iri) => seq![(str_hash(iri), iri)],
        TermV::BlankNode(_) => Seq::empty(),
        TermV::Literal(l) => staged_literal(l),
    }
}

/// The pairs staged for a graph name.
pub open spec fn staged_graph(g: Option<NamedOrBlankNodeV>) -> Seq<(u128, Seq<char>)> {
    match g {
        Option::None => Seq::empty(),
        Option::Some(t) => staged_named_or_blank(t),
    }
}

/// The pairs staged for a quad.
pub open spec fn staged_quad(q: QuadV) -> Seq<(u128, Seq<char>)> {
    staged_named_or_blank(q.subject) + seq![(str_hash(q.predicate), q.predicate)] + staged_term(
        q.object,
    ) + staged_graph(q.graph_name)
}

/// The view of a staging buffer: each pair with the string as characters.
pub open spec fn pairs_view(s: Seq<(u128, String)>) -> Seq<(u128, Seq<char>)> {
    s.map_values(|p: (u128, String)| (p.0, p.1@))
}

/// The dictionary resolves the hash of `s` to `s` itself.
pub open spec fn dict_covers_string(m: Map<u128, Seq<char>>, s: Seq<char>) -> bool {
    m.contains_key(str_hash(s)) && m[str_hash(s)] == s
}

/// The dictionary resolves every string a literal was encoded under.
pub open spec fn dict_covers_literal(m: Map<u128, Seq<char>>, l: LiteralV) -> bool {
    match l {
        LiteralV::Simple { value } => dict_covers_string(m, value),
        LiteralV::LanguageTagged { value, language } => dict_covers_string(m, value)
            && dict_covers_string(m, language),
        LiteralV::Typed { value, datatype } => {
            if inline_boolean(value, datatype) || inline_integer(value, datatype) {
                true
            } else {
                dict_covers_string(m, value) && dict_covers_string(m, datatype)
            }
        },
    }
}

/// The dictionary resolves every string of a subject or graph-name term.
pub open spec fn dict_covers_named_or_blank(
    m: Map<u128, Seq<char>>,
    t: NamedOrBlankNodeV,
) -> bool {
    match t {
        NamedOrBlankNodeV::NamedNode(iri) => dict_covers_string(m, iri),
        NamedOrBlankNodeV::BlankNode(_) => true,
    }
}

/// The dictionary resolves every string of a term.
pub open spec fn dict_covers_term(m: Map<u128, Seq<char>>, t: TermV) -> bool {
    match t {
        TermV::NamedNode(iri) => dict_covers_string(m, iri),
        TermV::BlankNode(_) => true,
        TermV::Literal(l) => dict_covers_literal(m, l),
    }
}

/// The dictionary resolves every string of a graph name.
pub open spec fn dict_covers_graph(m: Map<u128, Seq<char>>, g: Option<NamedOrBlankNodeV>) -> bool {
    match g {
        Option::None => true,
        Option::Some(t) => dict_covers_named_or_blank(m, t),
    }
}

/// The dictionary resolves every string of a quad.
pub open spec fn dict_covers_quad(m: Map<u128, Seq<char>>, q: QuadV) -> bool {
    dict_covers_named_or_blank(m, q.subject) && dict_covers_string(m, q.predicate)
        && dict_covers_term(m, q.object) && dict_covers_graph(m, q.graph_name)
}

/// What an encoded term denotes under a dictionary: `None` when a hash has
/// no entry or the encoded term is the default graph, which is no term.
pub open spec fn decode_term_spec(e: EncodedTerm, m: Map<u128, Seq<char>>) -> Option<TermV> {
    match e {
        EncodedTerm::DefaultGraph => Option::None,
        EncodedTerm::NamedNode { iri_id } => {
            if m.contains_key(iri_id) {
                Option::Some(TermV::NamedNode(m[iri_id]))
            } else {
                Option::None
            }
        },
        EncodedTerm::BlankNode { id } => Option::Some(TermV::BlankNode(id)),
        EncodedTerm::StringLiteral { value_id } => {
            if m.contains_key(value_id) {
                Option::Some(TermV::Literal(LiteralV::Simple { value: m[value_id] }))
            } else {
                Option::None
            }
        },
        EncodedTerm::LangStringLiteral { value_id, language_id } => {
            if m.contains_key(value_id) && m.contains_key(language_id) {
                Option::Some(
                    TermV::Literal(
                        LiteralV::LanguageTagged {
                            value: m[value_id],
                            language: m[language_id],
                        },
                    ),
                )
            } else {
                Option::None
            }
        },
        EncodedTerm::TypedLiteral { value_id, datatype_id } => {
            if m.contains_key(value_id) && m.contains_key(datatype_id) {
                Option::Some(
                    TermV::Literal(
                        LiteralV::Typed { value: m[value_id], datatype: m[datatype_id] },
                    ),
                )
            } else {
                Option::None
            }
        },
        EncodedTerm::BooleanLiteral { value } => Option::Some(
            TermV::Literal(
                LiteralV::Typed {
                    value: if value {
                        "true"@
                    } else {
                        "false"@
                    },
                    datatype: xsd_boolean_iri(),
                },
            ),
        ),
        EncodedTerm::IntegerLiteral { value } => Option::Some(
            TermV::Literal(
                LiteralV::Typed {
                    value: integer_canonical_lexical(value as int),
                    datatype: xsd_integer_iri(),
                },
            ),
        ),
    }
}

/// What an encoded term denotes in subject position.
pub open spec fn decode_subject_spec(e: EncodedTerm, m: Map<u128, Seq<char>>) -> Option<
    NamedOrBlankNodeV,
> {
    match e {
        EncodedTerm::NamedNode { iri_id } => {
            if m.contains_key(iri_id) {
                Option::Some(NamedOrBlankNodeV::NamedNode(m[iri_id]))
            } else {
                Option::None
            }
        },
        EncodedTerm::BlankNode { id } => Option::Some(NamedOrBlankNodeV::BlankNode(id)),
        _ => Option::None,
    }
}

/// What an encoded term denotes in predicate position.
pub open spec fn decode_predicate_spec(e: EncodedTerm, m: Map<u128, Seq<char>>) -> Option<
    Seq<char>,
> {
    match e {
        EncodedTerm::NamedNode { iri_id } => {
            if m.contains_key(iri_id) {
                Option::Some(m[iri_id])
            } else {
                Option::None
            }
        },
        _ => Option::None,
    }
}

/// What an encoded term denotes in graph position.
pub open spec fn decode_graph_spec(e: EncodedTerm, m: Map<u128, Seq<char>>) -> Option<
    Option<NamedOrBlankNodeV>,
> {
    match e {
        EncodedTerm::DefaultGraph => Option::Some(Option::None),
        EncodedTerm::NamedNode { iri_id } => {
            if m.contains_key(iri_id) {
                Option::Some(Option::Some(NamedOrBlankNodeV::NamedNode(m[iri_id])))
            } else {
                Option::None
            }
        },
        EncodedTerm::BlankNode { id } => Option::Some(
            Option::Some(NamedOrBlankNodeV::BlankNode(id)),
        ),
        _ => Option::None,
    }
}

/// What an encoded quad denotes under a dictionary.
pub open spec fn decode_quad_spec(q: EncodedQuad, m: Map<u128, Seq<char>>) -> Option<QuadV> {
    match (
        decode_subject_spec(q.subject, m),
        decode_predicate_spec(q.predicate, m),
        decode_term_spec(q.object, m),
        decode_graph_spec(q.graph_name, m),
    ) {
        (
            Option::Some(subject),
            Option::Some(predicate),
            Option::Some(object),
            Option::Some(graph_name),
        ) => Option::Some(QuadV { subject, predicate, object, graph_name }),
        _ => Option::None,
    }
}

/// The canonical form of a literal: inlineable numerics and booleans in
/// canonical spelling, everything else unchanged.
pub open spec fn canon_literal(l: LiteralV) -> LiteralV {
    match l {
        LiteralV::Typed { value, datatype } => {
            if inline_boolean(value, datatype) {
                LiteralV::Typed {
                    value: if boolean_lexical_value(value) {
                        "true"@
                    } else {
                        "false"@
                    },
                    datatype,
                }
            } else if inline_integer(value, datatype) {
                LiteralV::Typed {
                    value: integer_canonical_lexical(integer_lexical_value(value)),
                    datatype,
                }
            } else {
                l
            }
        },
        _ => l,
    }
}

/// The canonical form of a term.
pub open spec fn canon_term(t: TermV) -> TermV {
    match t {
        TermV::Literal(l) => TermV::Literal(canon_literal(l)),
        _ => t,
    }
}

/// The canonical form of a quad: only the object can change, and only for
/// inlined literals.
pub open spec fn canon_quad(q: QuadV) -> QuadV {
    QuadV {
        subject: q.subject,
        predicate: q.predicate,
        object: canon_term(q.object),
        graph_name: q.graph_name,
    }
}

/// Canonicalization touches only the inlined numeric and boolean
/// literals; every other term round-trips unchanged.
pub proof fn lemma_canon_preserves_non_inlined(t: TermV)
    requires
        match t {
            TermV::Literal(l) => match l {
                LiteralV::Typed { value, datatype } => !inline_boolean(value, datatype)
                    && !inline_integer(value, datatype),
                _ => true,
            },
            _ => true,
        },
    ensures
        canon_term(t) == t,
{
}

/// The boolean lexemes are distinct strings.
proof fn lemma_distinct_boolean_lexemes()
    ensures
        "false"@ != "true"@,
        "false"@ != "1"@,
{
    reveal_strlit("true");
    reveal_strlit("false");
    reveal_strlit("1");
    assert("true"@.len() == 4 && "false"@.len() == 5 && "1"@.len() == 1);
}

/// Canonicalizing a term does not change its encoding: the canonical
/// lexeme of an inlined literal parses back to the same inlined value, so
/// a decoded quad re-encodes to the stored key.
pub proof fn lemma_canon_encodes_same(t: TermV)
    ensures
        encoded_term_of(canon_term(t)) == encoded_term_of(t),
{
    match t {
        TermV::Literal(l) => {
            match l {
                LiteralV::Typed { value, datatype } => {
                    lemma_distinct_datatype_iris();
                    if inline_boolean(value, datatype) {
                        lemma_distinct_boolean_lexemes();
                    } else if inline_integer(value, datatype) {
                        crate::lexical::lemma_integer_canonical_round_trip(
                            integer_lexical_value(value),
                        );
                    }
                },
                _ => {},
            }
        },
        _ => {},
    }
}

/// Canonicalizing a quad does not change its encoding.
pub proof fn lemma_canon_quad_encodes_same(q: QuadV)
    ensures
        encoded_quad_of(canon_quad(q)) == encoded_quad_of(q),
{
    lemma_canon_encodes_same(q.object);
}

/// Decoding the encoding of a term yields its canonical form, under any
/// dictionary that resolves the strings the encoding staged.
pub proof fn lemma_term_round_trip(t: TermV, m: Map<u128, Seq<char>>)
    requires
        dict_covers_term(m, t),
    ensures
        decode_term_spec(encoded_term_of(t), m) == Some(canon_term(t)),
{
    match t {
        TermV::Literal(l) => {
            match l {
                LiteralV::Typed { value, datatype } => {
                    if inline_integer(value, datatype) && !inline_boolean(value, datatype) {
                        let v = integer_lexical_value(value);
                        assert((v as i64) as int == v);
                    }
                },
                _ => {},
            }
        },
        _ => {},
    }
}

/// Decoding the encoding of a subject yields it back.
pub proof fn lemma_subject_round_trip(t: NamedOrBlankNodeV, m: Map<u128, Seq<char>>)
    requires
        dict_covers_named_or_blank(m, t),
    ensures
        decode_subject_spec(encoded_named_or_blank_of(t), m) == Some(t),
{
}

/// Decoding the encoding of a graph name yields it back.
pub proof fn lemma_graph_round_trip(g: Option<NamedOrBlankNodeV>, m: Map<u128, Seq<char>>)
    requires
        dict_covers_graph(m, g),
    ensures
        decode_graph_spec(encoded_graph_of(g), m) == Some(g),
{
}

/// Decoding the encoding of a quad yields its canonical form, under any
/// dictionary that resolves the strings the encoding staged.
pub proof fn lemma_quad_round_trip(q: QuadV, m: Map<u128, Seq<char>>)
    requires
        dict_covers_quad(m, q),
    ensures
        decode_quad_spec(encoded_quad_of(q), m) == Some(canon_quad(q)),
{
    lemma_subject_round_trip(q.subject, m);
    lemma_term_round_trip(q.object, m);
    lemma_graph_round_trip(q.graph_name, m);
}

/// The two inlineable datatype IRIs are distinct strings.
proof fn lemma_distinct_datatype_iris()
    ensures
        xsd_boolean_iri() != xsd_integer_iri(),
{
    reveal_strlit("http://www.w3.org/2001/XMLSchema#boolean");
    reveal_strlit("http://www.w3.org/2001/XMLSchema#integer");
    assert(xsd_boolean_iri()[33] == 'b');
    assert(xsd_integer_iri()[33] == 'i');
}

/// Encodes a literal, hashing its strings or inlining its value.
pub fn encode_literal(literal: &Literal) -> (e: EncodedTerm)
    ensures
        e == encoded_literal_of(literal@),
{
    match literal {
        Literal::Simple { value } => EncodedTerm::StringLiteral {
            value_id: StrHash::new(value.as_str()).hash,
        },
        Literal::LanguageTagged { value, language } => EncodedTerm::LangStringLiteral {
            value_id: StrHash::new(value.as_str()).hash,
            language_id: StrHash::new(language.as_str()).hash,
        },
        Literal::Typed { value, datatype } => {
            proof {
                lemma_distinct_datatype_iris();
            }
            if str_eq(datatype.as_str(), "http://www.w3.org/2001/XMLSchema#boolean") {
                match parse_boolean(value.as_str()) {
                    Some(b) => EncodedTerm::BooleanLiteral { value: b },
                    None => EncodedTerm::TypedLiteral {
                        value_id: StrHash::new(value.as_str()).hash,
                        datatype_id: StrHash::new(datatype.as_str()).hash,
                    },
                }
            } else if str_eq(datatype.as_str(), "http://www.w3.org/2001/XMLSchema#integer") {
                match parse_integer(value.as_str()) {
                    Some(v) => EncodedTerm::IntegerLiteral { value: v },
                    None => EncodedTerm::TypedLiteral {
                        value_id: StrHash::new(value.as_str()).hash,
                        datatype_id: StrHash::new(datatype.as_str()).hash,
                    },
                }
            } else {
                EncodedTerm::TypedLiteral {
                    value_id: StrHash::new(value.as_str()).hash,
                    datatype_id: StrHash::new(datatype.as_str()).hash,
                }
            }
        },
    }
}

/// Encodes a subject or graph-name term.
pub fn encode_named_or_blank(term: &NamedOrBlankNode) -> (e: EncodedTerm)
    ensures
        e == encoded_named_or_blank_of(term@),
{
    match term {
        NamedOrBlankNode::NamedNode(n) => EncodedTerm::NamedNode {
            iri_id: StrHash::new(n.as_str()).hash,
        },
        NamedOrBlankNode::BlankNode(b) => EncodedTerm::BlankNode { id: b.id },
    }
}

/// Encodes a term.
pub fn encode_rdf_term(term: &Term) -> (e: EncodedTerm)
    ensures
        e == encoded_term_of(term@),
{
    match term {
        Term::NamedNode(n) => EncodedTerm::NamedNode { iri_id: StrHash::new(n.as_str()).hash },
        Term::BlankNode(b) => EncodedTerm::BlankNode { id: b.id },
        Term::Literal(l) => encode_literal(l),
    }
}

/// Encodes a graph name; `None` is the default graph.
pub fn encode_graph(graph_name: &Option<NamedOrBlankNode>) -> (e: EncodedTerm)
    ensures
        e == encoded_graph_of(match graph_name {
            Option::None => Option::None,
            Option::Some(g) => Option::Some(g@),
        }),
{
    match graph_name {
        Option::None => EncodedTerm::DefaultGraph,
        Option::Some(g) => encode_named_or_blank(g),
    }
}

/// Encodes a quad without staging dictionary entries, as for lookups and
/// removals.
pub fn get_encoded_quad(quad: &Quad) -> (e: EncodedQuad)
    ensures
        e == encoded_quad_of(quad@),
{
    EncodedQuad {
        subject: encode_named_or_blank(&quad.subject),
        predicate: EncodedTerm::NamedNode { iri_id: StrHash::new(quad.predicate.as_str()).hash },
        object: encode_rdf_term(&quad.object),
        graph_name: encode_graph(&quad.graph_name),
    }
}

/// Appends one hash-to-string pair to a staging buffer.
fn stage_string(buffer: &mut Vec<(u128, String)>, value: &str)
    ensures
        pairs_view(final(buffer)@) == pairs_view(old(buffer)@) + seq![
            (str_hash(value@), value@),
        ],
{
    let h = StrHash::new(value);
    buffer.push((h.hash, value.to_owned()));
    proof {
        assert(pairs_view(buffer@) =~= pairs_view(old(buffer)@) + seq![
            (str_hash(value@), value@),
        ]);
    }
}

/// Stages the dictionary pairs of a literal.
fn stage_literal(literal: &Literal, buffer: &mut Vec<(u128, String)>)
    ensures
        pairs_view(final(buffer)@) == pairs_view(old(buffer)@) + staged_literal(literal@),
{
    match literal {
        Literal::Simple { value } => {
            stage_string(buffer, value.as_str());
        },
        Literal::LanguageTagged { value, language } => {
            stage_string(buffer, value.as_str());
            stage_string(buffer, language.as_str());
            proof {
                assert(pairs_view(buffer@) =~= pairs_view(old(buffer)@) + staged_literal(
                    literal@,
                ));
            }
        },
        Literal::Typed { value, datatype } => {
            proof {
                lemma_distinct_datatype_iris();
            }
            let inline_bool = str_eq(datatype.as_str(), "http://www.w3.org/2001/XMLSchema#boolean")
                && parse_boolean(value.as_str()).is_some();
            let inline_int = str_eq(datatype.as_str(), "http://www.w3.org/2001/XMLSchema#integer")
                && parse_integer(value.as_str()).is_some();
            if !inline_bool && !inline_int {
                stage_string(buffer, value.as_str());
                stage_string(buffer, datatype.as_str());
                proof {
                    assert(pairs_view(buffer@) =~= pairs_view(old(buffer)@) + staged_literal(
                        literal@,
                    ));
                }
            }
        },
    }
}

/// Stages the dictionary pairs of a subject or graph-name term.
fn stage_named_or_blank(term: &NamedOrBlankNode, buffer: &mut Vec<(u128, String)>)
    ensures
        pairs_view(final(buffer)@) == pairs_view(old(buffer)@) + staged_named_or_blank(term@),
{
    match term {
        NamedOrBlankNode::NamedNode(n) => {
            stage_string(buffer, n.as_str());
        },
        NamedOrBlankNode::BlankNode(_) => {
            proof {
                assert(pairs_view(buffer@) =~= pairs_view(old(buffer)@) + staged_named_or_blank(
                    term@,
                ));
            }
        },
    }
}

/// Stages the dictionary pairs of a quad, in subject, predicate, object,
/// graph order.
pub fn stage_quad(quad: &Quad, buffer: &mut Vec<(u128, String)>)
    ensures
        pairs_view(final(buffer)@) == pairs_view(old(buffer)@) + staged_quad(quad@),
{
    stage_named_or_blank(&quad.subject, buffer);
    stage_string(buffer, quad.predicate.as_str());
    match &quad.object {
        Term::NamedNode(n) => {
            stage_string(buffer, n.as_str());
        },
        Term::BlankNode(_) => {},
        Term::Literal(l) => {
            stage_literal(l, buffer);
        },
    }
    match &quad.graph_name {
        Option::None => {},
        Option::Some(g) => {
            stage_named_or_blank(g, buffer);
        },
    }
    proof {
        assert(pairs_view(buffer@) =~= pairs_view(old(buffer)@) + staged_quad(quad@));
    }
}

/// Decodes an encoded term; fails exactly when a referenced hash has no
/// dictionary entry or the default graph appears where a term is expected.
pub fn decode_term(e: &EncodedTerm, dict: &Dictionary) -> (r: Result<Term, Error>)
    requires
        dict.wf(),
    ensures
        r matches Ok(t) ==> decode_term_spec(*e, dict@) == Some(t@),
        r is Err ==> decode_term_spec(*e, dict@) is None && r == Err::<Term, Error>(
            Error::Corruption,
        ),
{
    match e {
        EncodedTerm::DefaultGraph => Err(Error::Corruption),
        EncodedTerm::NamedNode { iri_id } => {
            match dict.get_str(StrHash { hash: *iri_id }) {
                Some(iri) => Ok(Term::NamedNode(NamedNodeBuf::new_unchecked(iri))),
                None => Err(Error::Corruption),
            }
        },
        EncodedTerm::BlankNode { id } => Ok(
            Term::BlankNode(crate::model::BlankNode::new_from_unique_id(*id)),
        ),
        EncodedTerm::StringLiteral { value_id } => {
            match dict.get_str(StrHash { hash: *value_id }) {
                Some(value) => Ok(Term::Literal(Literal::Simple { value })),
                None => Err(Error::Corruption),
            }
        },
        EncodedTerm::LangStringLiteral { value_id, language_id } => {
            match dict.get_str(StrHash { hash: *value_id }) {
                Some(value) => {
                    match dict.get_str(StrHash { hash: *language_id }) {
                        Some(language) => Ok(
                            Term::Literal(Literal::LanguageTagged { value, language }),
                        ),
                        None => Err(Error::Corruption),
                    }
                },
                None => Err(Error::Corruption),
            }
        },
        EncodedTerm::TypedLiteral { value_id, datatype_id } => {
            match dict.get_str(StrHash { hash: *value_id }) {
                Some(value) => {
                    match dict.get_str(StrHash { hash: *datatype_id }) {
                        Some(datatype) => Ok(
                            Term::Literal(
                                Literal::Typed {
                                    value,
                                    datatype: NamedNodeBuf::new_unchecked(datatype),
                                },
                            ),
                        ),
                        None => Err(Error::Corruption),
                    }
                },
                None => Err(Error::Corruption),
            }
        },
        EncodedTerm::BooleanLiteral { value } => Ok(
            Term::Literal(
                Literal::Typed { value: boolean_to_string(*value), datatype: xsd_boolean() },
            ),
        ),
        EncodedTerm::IntegerLiteral { value } => Ok(
            Term::Literal(
                Literal::Typed { value: integer_to_string(*value), datatype: xsd_integer() },
            ),
        ),
    }
}

/// Decodes a subject; fails on a missing entry or a term of the wrong kind.
pub fn decode_subject(e: &EncodedTerm, dict: &Dictionary) -> (r: Result<NamedOrBlankNode, Error>)
    requires
        dict.wf(),
    ensures
        r matches Ok(t) ==> decode_subject_spec(*e, dict@) == Some(t@),
        r is Err ==> decode_subject_spec(*e, dict@) is None && r == Err::<NamedOrBlankNode, Error>(
            Error::Corruption,
        ),
{
    match e {
        EncodedTerm::NamedNode { iri_id } => {
            match dict.get_str(StrHash { hash: *iri_id }) {
                Some(iri) => Ok(NamedOrBlankNode::NamedNode(NamedNodeBuf::new_unchecked(iri))),
                None => Err(Error::Corruption),
            }
        },
        EncodedTerm::BlankNode { id } => Ok(
            NamedOrBlankNode::BlankNode(crate::model::BlankNode::new_from_unique_id(*id)),
        ),
        _ => Err(Error::Corruption),
    }
}

/// Decodes a predicate; fails unless the term is a resolvable named node.
pub fn decode_predicate(e: &EncodedTerm, dict: &Dictionary) -> (r: Result<NamedNodeBuf, Error>)
    requires
        dict.wf(),
    ensures
        r matches Ok(t) ==> decode_predicate_spec(*e, dict@) == Some(t@),
        r is Err ==> decode_predicate_spec(*e, dict@) is None && r == Err::<NamedNodeBuf, Error>(
            Error::Corruption,
        ),
{
    match e {
        EncodedTerm::NamedNode { iri_id } => {
            match dict.get_str(StrHash { hash: *iri_id }) {
                Some(iri) => Ok(NamedNodeBuf::new_unchecked(iri)),
                None => Err(Error::Corruption),
            }
        },
        _ => Err(Error::Corruption),
    }
}

/// Decodes a graph name; the default graph decodes to `None`.
pub fn decode_graph(e: &EncodedTerm, dict: &Dictionary) -> (r: Result<
    Option<NamedOrBlankNode>,
    Error,
>)
    requires
        dict.wf(),
    ensures
        r matches Ok(t) ==> decode_graph_spec(*e, dict@) == Some(
            match t {
                Option::None => Option::None,
                Option::Some(g) => Option::Some(g@),
            },
        ),
        r is Err ==> decode_graph_spec(*e, dict@) is None && r == Err::<
            Option<NamedOrBlankNode>,
            Error,
        >(Error::Corruption),
{
    match e {
        EncodedTerm::DefaultGraph => Ok(None),
        EncodedTerm::NamedNode { iri_id } => {
            match dict.get_str(StrHash { hash: *iri_id }) {
                Some(iri) => Ok(
                    Some(NamedOrBlankNode::NamedNode(NamedNodeBuf::new_unchecked(iri))),
                ),
                None => Err(Error::Corruption),
            }
        },
        EncodedTerm::BlankNode { id } => Ok(
            Some(NamedOrBlankNode::BlankNode(crate::model::BlankNode::new_from_unique_id(*id))),
        ),
        _ => Err(Error::Corruption),
    }
}

/// Decodes an encoded quad back to logical order; fails exactly when some
/// component cannot be decoded.
pub fn decode_quad(q: &EncodedQuad, dict: &Dictionary) -> (r: Result<Quad, Error>)
    requires
        dict.wf(),
    ensures
        r matches Ok(t) ==> decode_quad_spec(*q, dict@) == Some(t@),
        r is Err ==> decode_quad_spec(*q, dict@) is None && r == Err::<Quad, Error>(
            Error::Corruption,
        ),
{
    let subject = match decode_subject(&q.subject, dict) {
        Ok(s) => s,
        Err(e) => {
            return Err(e);
        },
    };
    let predicate = match decode_predicate(&q.predicate, dict) {
        Ok(p) => p,
        Err(e) => {
            return Err(e);
        },
    };
    let object = match decode_term(&q.object, dict) {
        Ok(o) => o,
        Err(e) => {
            return Err(e);
        },
    };
    let graph_name = match decode_graph(&q.graph_name, dict) {
        Ok(g) => g,
        Err(e) => {
            return Err(e);
        },
    };
    Ok(Quad { subject, predicate, object, graph_name })
}

/// Encodes a quad given by its parts, without staging dictionary entries.
pub fn get_encoded_quad_parts(
    subject: &NamedOrBlankNode,
    predicate: &NamedNodeBuf,
    object: &Term,
    graph_name: Option<&NamedOrBlankNode>,
) -> (e: EncodedQuad)
    ensures
        e == encoded_quad_of(
            QuadV {
                subject: subject@,
                predicate: predicate.iri@,
                object: object@,
                graph_name: match graph_name {
                    Option::None => Option::None,
                    Option::Some(g) => Option::Some(g@),
                },
            },
        ),
{
    EncodedQuad {
        subject: encode_named_or_blank(subject),
        predicate: EncodedTerm::NamedNode { iri_id: StrHash::new(predicate.as_str()).hash },
        object: encode_rdf_term(object),
        graph_name: match graph_name {
            Option::None => EncodedTerm::DefaultGraph,
            Option::Some(g) => encode_named_or_blank(g),
        },
    }
}

/// Stages the dictionary pairs of a quad given by its parts, in subject,
/// predicate, object, graph order.
pub fn stage_quad_parts(
    subject: &NamedOrBlankNode,
    predicate: &NamedNodeBuf,
    object: &Term,
    graph_name: Option<&NamedOrBlankNode>,
    buffer: &mut Vec<(u128, String)>,
)
    ensures
        pairs_view(final(buffer)@) == pairs_view(old(buffer)@) + staged_quad(
            QuadV {
                subject: subject@,
                predicate: predicate.iri@,
                object: object@,
                graph_name: match graph_name {
                    Option::None => Option::None,
                    Option::Some(g) => Option::Some(g@),
                },
            },
        ),
{
    stage_named_or_blank(subject, buffer);
    stage_string(buffer, predicate.as_str());
    match object {
        Term::NamedNode(n) => {
            stage_string(buffer, n.as_str());
        },
        Term::BlankNode(_) => {},
        Term::Literal(l) => {
            stage_literal(l, buffer);
        },
    }
    match graph_name {
        Option::None => {},
        Option::Some(g) => {
            stage_named_or_blank(g, buffer);
        },
    }
    proof {
        assert(pairs_view(buffer@) =~= pairs_view(old(buffer)@) + staged_quad(
            QuadV {
                subject: subject@,
                predicate: predicate.iri@,
                object: object@,
                graph_name: match graph_name {
                    Option::None => Option::None,
                    Option::Some(g) => Option::Some(g@),
                },
            },
        ));
    }
}

} // verus!
