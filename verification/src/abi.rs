//! The RDF term ABI for host-language bindings.
//!
//! A host factory presents terms as records with a `termType` string, a
//! `value` string and, for literals, a `language` string and a `datatype`
//! term. This module holds the conversion rules between those shapes and
//! the data model: dispatch on the term type, the hexadecimal 128-bit
//! blank-node labels, the implicit datatypes of plain and language-tagged
//! literals, and the positional checks a quad imposes on its terms. The
//! host glue that reads the records stays outside; it hands plain values
//! in.

use vstd::prelude::*;

use crate::Error;
use crate::lexical::{hex_lexical_value, parse_hex_u128, str_eq, valid_hex_lexical};
use crate::model::{
    BlankNode, Literal, NamedNodeBuf, NamedOrBlankNode, Quad, Term, rdf_lang_string_iri,
    valid_iri, valid_language, xsd_string_iri,
};

verus! {

/// A term as a host factory sees it: the three RDF term kinds plus the
/// default graph.
#[derive(Clone, Debug, PartialEq, Eq)]
pub enum AbiTerm {
    /// A named node.
    NamedNode(NamedNodeBuf),
    /// A blank node.
    BlankNode(BlankNode),
    /// A literal.
    Literal(Literal),
    /// The default graph.
    DefaultGraph,
}

/// The qualifier handed to the literal factory: nothing, a language tag, or
/// a datatype term.
#[derive(Clone, Debug, PartialEq, Eq)]
pub enum LiteralQualifier {
    /// No qualifier: a simple literal.
    Unqualified,
    /// A language tag.
    Language(String),
    /// A datatype term; only a named node is legal.
    Datatype(AbiTerm),
}

/// The four `termType` names are pairwise distinct strings.
proof fn lemma_distinct_term_types()
    ensures
        "NamedNode"@ != "BlankNode"@,
        "NamedNode"@ != "Literal"@,
        "NamedNode"@ != "DefaultGraph"@,
        "BlankNode"@ != "Literal"@,
        "BlankNode"@ != "DefaultGraph"@,
        "Literal"@ != "DefaultGraph"@,
{
    reveal_strlit("NamedNode");
    reveal_strlit("BlankNode");
    reveal_strlit("Literal");
    reveal_strlit("DefaultGraph");
    assert("NamedNode"@[0] == 'N' && "BlankNode"@[0] == 'B');
    assert("NamedNode"@.len() == 9 && "Literal"@.len() == 7 && "DefaultGraph"@.len() == 12);
}

/// Builds a named node from a factory `value`: exactly the IRI validation
/// of the model.
pub fn named_node(value: String) -> (r: Result<NamedNodeBuf, Error>)
    ensures
        r matches Ok(node) ==> valid_iri(value@) && node.iri@ == value@,
        r is Err ==> !valid_iri(value@) && r == Err::<NamedNodeBuf, Error>(Error::InvalidInput),
{
    NamedNodeBuf::parse(value)
}

/// Builds a blank node from an optional factory label. A given label must
/// be a 128-bit hexadecimal number, as this store mints them; anything else
/// is rejected. Without a label a fresh random identifier is minted.
pub fn blank_node(value: Option<&str>) -> (r: Result<BlankNode, Error>)
    ensures
        value matches Some(v) ==> ((r matches Ok(b) ==> valid_hex_lexical(v@) && b.id
            == hex_lexical_value(v@)) && (r is Err ==> !(valid_hex_lexical(v@)
            && hex_lexical_value(v@) <= u128::MAX) && r == Err::<BlankNode, Error>(
            Error::InvalidInput,
        ))),
        value is None ==> r is Ok,
{
    match value {
        Some(v) => {
            match parse_hex_u128(v) {
                Some(id) => Ok(BlankNode::new_from_unique_id(id)),
                None => Err(Error::InvalidInput),
            }
        },
        None => Ok(BlankNode::new()),
    }
}

/// Builds a literal from a factory `value` and qualifier: no qualifier
/// yields a simple literal, a language tag a language-tagged one, a named
/// node a typed one; any other datatype term is rejected. A missing value
/// defaults to the empty string.
pub fn literal(value: Option<String>, qualifier: LiteralQualifier) -> (r: Result<Literal, Error>)
    ensures
        ({
            let lex = match value {
                Option::Some(v) => v@,
                Option::None => Seq::<char>::empty(),
            };
            match qualifier {
                LiteralQualifier::Unqualified => r matches Ok(l) && l matches Literal::Simple {
                    value: lv,
                } && lv@ == lex,
                LiteralQualifier::Language(language) => (valid_language(language@) ==> (r matches
                    Ok(l) && l matches Literal::LanguageTagged { value: lv, language: ll } && lv@
                    == lex && ll@ == language@)) && (!valid_language(language@) ==> r == Err::<
                    Literal,
                    Error,
                >(Error::InvalidInput)),
                LiteralQualifier::Datatype(t) => match t {
                    AbiTerm::NamedNode(d) => (d.iri@ == xsd_string_iri() ==> (r matches Ok(l)
                        && l matches Literal::Simple { value: lv } && lv@ == lex)) && (d.iri@
                        != xsd_string_iri() ==> (r matches Ok(l) && l matches Literal::Typed {
                        value: lv,
                        datatype: ld,
                    } && lv@ == lex && ld == d)),
                    _ => r == Err::<Literal, Error>(Error::InvalidInput),
                },
            }
        }),
{
    let lex = match value {
        Some(v) => v,
        None => String::new(),
    };
    match qualifier {
        LiteralQualifier::Unqualified => Ok(Literal::new_simple_literal(lex)),
        LiteralQualifier::Language(language) => Literal::new_language_tagged_literal(
            lex,
            language,
        ),
        LiteralQualifier::Datatype(t) => {
            match t {
                AbiTerm::NamedNode(d) => Ok(Literal::new_typed_literal(lex, d)),
                _ => Err(Error::InvalidInput),
            }
        },
    }
}

/// The default graph.
pub fn default_graph() -> (r: AbiTerm)
    ensures
        r is DefaultGraph,
{
    AbiTerm::DefaultGraph
}

/// Converts a record with a `termType`, a `value`, and for literals a
/// `language` and an already-converted `datatype` term, into an ABI term:
/// the dispatch a host object goes through on its way in.
pub fn term_from_parts(
    term_type: &str,
    value: Option<String>,
    language: Option<String>,
    datatype: Option<AbiTerm>,
) -> (r: Result<AbiTerm, Error>)
    ensures
        term_type@ == "NamedNode"@ ==> (match value {
            Option::Some(v) => (valid_iri(v@) ==> (r matches Ok(t) && t matches AbiTerm::NamedNode(
                n,
            ) && n.iri@ == v@)) && (!valid_iri(v@) ==> r == Err::<AbiTerm, Error>(
                Error::InvalidInput,
            )),
            Option::None => r == Err::<AbiTerm, Error>(Error::InvalidInput),
        }),
        term_type@ == "BlankNode"@ ==> (match value {
            Option::Some(v) => ((valid_hex_lexical(v@) && hex_lexical_value(v@) <= u128::MAX)
                ==> (r matches Ok(t) && t matches AbiTerm::BlankNode(b) && b.id
                == hex_lexical_value(v@))) && (!(valid_hex_lexical(v@) && hex_lexical_value(v@)
                <= u128::MAX) ==> r == Err::<AbiTerm, Error>(Error::InvalidInput)),
            Option::None => r == Err::<AbiTerm, Error>(Error::InvalidInput),
        }),
        term_type@ == "Literal"@ ==> (match (value, datatype) {
            (Option::Some(v), Option::Some(AbiTerm::NamedNode(d))) => (d.iri@ == xsd_string_iri()
                ==> (r matches Ok(t) && t matches AbiTerm::Literal(l)
                && l matches Literal::Simple { value: lv } && lv@ == v@)) && (d.iri@
                == rdf_lang_string_iri() ==> (match language {
                Option::Some(tag) => (valid_language(tag@) ==> (r matches Ok(t)
                    && t matches AbiTerm::Literal(l) && l matches Literal::LanguageTagged {
                    value: lv,
                    language: ll,
                } && lv@ == v@ && ll@ == tag@)) && (!valid_language(tag@) ==> r == Err::<
                    AbiTerm,
                    Error,
                >(Error::InvalidInput)),
                Option::None => r == Err::<AbiTerm, Error>(Error::InvalidInput),
            })) && ((d.iri@ != xsd_string_iri() && d.iri@ != rdf_lang_string_iri()) ==> (r matches
                Ok(t) && t matches AbiTerm::Literal(l) && l matches Literal::Typed {
                value: lv,
                datatype: ld,
            } && lv@ == v@ && ld == d)),
            _ => r == Err::<AbiTerm, Error>(Error::InvalidInput),
        }),
        term_type@ == "DefaultGraph"@ ==> (r matches Ok(t) && t is DefaultGraph),
        (term_type@ != "NamedNode"@ && term_type@ != "BlankNode"@ && term_type@ != "Literal"@
            && term_type@ != "DefaultGraph"@) ==> r == Err::<AbiTerm, Error>(Error::InvalidInput),
{
    proof {
        lemma_distinct_term_types();
    }
    if str_eq(term_type, "NamedNode") {
        match value {
            Some(v) => {
                match NamedNodeBuf::parse(v) {
                    Ok(n) => Ok(AbiTerm::NamedNode(n)),
                    Err(e) => Err(e),
                }
            },
            None => Err(Error::InvalidInput),
        }
    } else if str_eq(term_type, "BlankNode") {
        match value {
            Some(v) => {
                match parse_hex_u128(v.as_str()) {
                    Some(id) => Ok(AbiTerm::BlankNode(BlankNode::new_from_unique_id(id))),
                    None => Err(Error::InvalidInput),
                }
            },
            None => Err(Error::InvalidInput),
        }
    } else if str_eq(term_type, "Literal") {
        proof {
            crate::model::lemma_distinct_implicit_datatypes();
        }
        match (value, datatype) {
            (Some(v), Some(AbiTerm::NamedNode(d))) => {
                if str_eq(d.as_str(), "http://www.w3.org/2001/XMLSchema#string") {
                    Ok(AbiTerm::Literal(Literal::new_simple_literal(v)))
                } else if str_eq(
                    d.as_str(),
                    "http://www.w3.org/1999/02/22-rdf-syntax-ns#langString",
                ) {
                    match language {
                        Some(tag) => {
                            match Literal::new_language_tagged_literal(v, tag) {
                                Ok(l) => Ok(AbiTerm::Literal(l)),
                                Err(e) => Err(e),
                            }
                        },
                        None => Err(Error::InvalidInput),
                    }
                } else {
                    Ok(AbiTerm::Literal(Literal::new_typed_literal(v, d)))
                }
            },
            _ => Err(Error::InvalidInput),
        }
    } else if str_eq(term_type, "DefaultGraph") {
        Ok(AbiTerm::DefaultGraph)
    } else {
        Err(Error::InvalidInput)
    }
}

/// The subject a term yields, when it is legal in subject position.
pub open spec fn abi_subject(t: AbiTerm) -> Option<NamedOrBlankNode> {
    match t {
        AbiTerm::NamedNode(n) => Option::Some(NamedOrBlankNode::NamedNode(n)),
        AbiTerm::BlankNode(b) => Option::Some(NamedOrBlankNode::BlankNode(b)),
        _ => Option::None,
    }
}

/// The predicate a term yields, when it is legal in predicate position.
pub open spec fn abi_predicate(t: AbiTerm) -> Option<NamedNodeBuf> {
    match t {
        AbiTerm::NamedNode(n) => Option::Some(n),
        _ => Option::None,
    }
}

/// The object a term yields, when it is legal in object position.
pub open spec fn abi_object(t: AbiTerm) -> Option<Term> {
    match t {
        AbiTerm::NamedNode(n) => Option::Some(Term::NamedNode(n)),
        AbiTerm::BlankNode(b) => Option::Some(Term::BlankNode(b)),
        AbiTerm::Literal(l) => Option::Some(Term::Literal(l)),
        AbiTerm::DefaultGraph => Option::None,
    }
}

/// The graph name a term yields, when it is legal in graph position.
pub open spec fn abi_graph(t: AbiTerm) -> Option<Option<NamedOrBlankNode>> {
    match t {
        AbiTerm::NamedNode(n) => Option::Some(Option::Some(NamedOrBlankNode::NamedNode(n))),
        AbiTerm::BlankNode(b) => Option::Some(Option::Some(NamedOrBlankNode::BlankNode(b))),
        AbiTerm::DefaultGraph => Option::Some(Option::None),
        AbiTerm::Literal(_) => Option::None,
    }
}

/// An ABI term in a position that takes only a named node.
pub fn to_named_node(term: AbiTerm) -> (r: Result<NamedNodeBuf, Error>)
    ensures
        r matches Ok(n) ==> abi_predicate(term) == Some(n),
        r is Err ==> abi_predicate(term) is None && r == Err::<NamedNodeBuf, Error>(
            Error::InvalidInput,
        ),
        (r is Ok) == (abi_predicate(term) is Some),
{
    match term {
        AbiTerm::NamedNode(n) => Ok(n),
        _ => Err(Error::InvalidInput),
    }
}

/// An ABI term in a position that takes a named or blank node.
pub fn to_named_or_blank_node(term: AbiTerm) -> (r: Result<NamedOrBlankNode, Error>)
    ensures
        r matches Ok(s) ==> abi_subject(term) == Some(s),
        r is Err ==> abi_subject(term) is None && r == Err::<NamedOrBlankNode, Error>(
            Error::InvalidInput,
        ),
        (r is Ok) == (abi_subject(term) is Some),
{
    match term {
        AbiTerm::NamedNode(n) => Ok(NamedOrBlankNode::NamedNode(n)),
        AbiTerm::BlankNode(b) => Ok(NamedOrBlankNode::BlankNode(b)),
        _ => Err(Error::InvalidInput),
    }
}

/// An ABI term in a position that takes any RDF term; the default graph is
/// no term.
pub fn to_term(term: AbiTerm) -> (r: Result<Term, Error>)
    ensures
        r matches Ok(t) ==> abi_object(term) == Some(t),
        r is Err ==> abi_object(term) is None && r == Err::<Term, Error>(Error::InvalidInput),
        (r is Ok) == (abi_object(term) is Some),
{
    match term {
        AbiTerm::NamedNode(n) => Ok(Term::NamedNode(n)),
        AbiTerm::BlankNode(b) => Ok(Term::BlankNode(b)),
        AbiTerm::Literal(l) => Ok(Term::Literal(l)),
        AbiTerm::DefaultGraph => Err(Error::InvalidInput),
    }
}

/// An ABI term in graph position: the default graph becomes `None`, a
/// literal is rejected.
pub fn to_graph_name(term: AbiTerm) -> (r: Result<Option<NamedOrBlankNode>, Error>)
    ensures
        r matches Ok(g) ==> abi_graph(term) == Some(g),
        r is Err ==> abi_graph(term) is None && r == Err::<Option<NamedOrBlankNode>, Error>(
            Error::InvalidInput,
        ),
        (r is Ok) == (abi_graph(term) is Some),
{
    match term {
        AbiTerm::NamedNode(n) => Ok(Some(NamedOrBlankNode::NamedNode(n))),
        AbiTerm::BlankNode(b) => Ok(Some(NamedOrBlankNode::BlankNode(b))),
        AbiTerm::DefaultGraph => Ok(None),
        AbiTerm::Literal(_) => Err(Error::InvalidInput),
    }
}

/// Builds a quad from four ABI terms, enforcing the positional rules of the
/// data model.
pub fn quad_from_terms(
    subject: AbiTerm,
    predicate: AbiTerm,
    object: AbiTerm,
    graph_name: AbiTerm,
) -> (r: Result<Quad, Error>)
    ensures
        r matches Ok(q) ==> abi_subject(subject) == Some(q.subject) && abi_predicate(predicate)
            == Some(q.predicate) && abi_object(object) == Some(q.object) && abi_graph(graph_name)
            == Some(q.graph_name),
        (r is Err) == (abi_subject(subject) is None || abi_predicate(predicate) is None
            || abi_object(object) is None || abi_graph(graph_name) is None),
        r is Err ==> r == Err::<Quad, Error>(Error::InvalidInput),
{
    let subject = match to_named_or_blank_node(subject) {
        Ok(s) => s,
        Err(e) => {
            return Err(e);
        },
    };
    let predicate = match to_named_node(predicate) {
        Ok(p) => p,
        Err(e) => {
            return Err(e);
        },
    };
    let object = match to_term(object) {
        Ok(o) => o,
        Err(e) => {
            return Err(e);
        },
    };
    let graph_name = match to_graph_name(graph_name) {
        Ok(g) => g,
        Err(e) => {
            return Err(e);
        },
    };
    Ok(Quad::new(subject, predicate, object, graph_name))
}

/// Builds a triple, a quad in the default graph, from three ABI terms.
pub fn triple_from_terms(subject: AbiTerm, predicate: AbiTerm, object: AbiTerm) -> (r: Result<
    Quad,
    Error,
>)
    ensures
        r matches Ok(q) ==> abi_subject(subject) == Some(q.subject) && abi_predicate(predicate)
            == Some(q.predicate) && abi_object(object) == Some(q.object) && q.graph_name
            == None::<NamedOrBlankNode>,
        (r is Err) == (abi_subject(subject) is None || abi_predicate(predicate) is None
            || abi_object(object) is None),
        r is Err ==> r == Err::<Quad, Error>(Error::InvalidInput),
{
    quad_from_terms(subject, predicate, object, AbiTerm::DefaultGraph)
}

} // verus!
