use quadstore::abi::{
    blank_node, default_graph, literal, named_node, quad_from_terms, term_from_parts,
    to_graph_name, to_named_node, to_named_or_blank_node, to_term, triple_from_terms, AbiTerm,
    LiteralQualifier,
};
use quadstore::model::{Literal, NamedNodeBuf, Term};
use quadstore::service::service_outcome;
use quadstore::Error;

fn named(iri: &str) -> NamedNodeBuf {
    NamedNodeBuf::parse(String::from(iri)).unwrap()
}

#[test]
fn factory_named_node() {
    let node = named_node(String::from("http://example.com")).unwrap();
    assert_eq!(node.as_str(), "http://example.com");
    assert_eq!(
        named_node(String::from("not an iri")),
        Err(Error::InvalidInput)
    );
}

#[test]
fn factory_blank_node() {
    assert_eq!(blank_node(Some("1f")).unwrap().id, 0x1f);
    assert_eq!(
        blank_node(Some("ffffffffffffffffffffffffffffffff")).unwrap().id,
        u128::MAX
    );
    assert_eq!(blank_node(Some("xyz")), Err(Error::InvalidInput));
    assert_eq!(blank_node(Some("")), Err(Error::InvalidInput));
    assert_eq!(
        blank_node(Some("100000000000000000000000000000000")),
        Err(Error::InvalidInput)
    );
    assert!(blank_node(None).is_ok());
}

#[test]
fn factory_literal() {
    let simple = literal(Some(String::from("hi")), LiteralQualifier::Unqualified).unwrap();
    assert_eq!(simple, Literal::Simple { value: String::from("hi") });

    let defaulted = literal(None, LiteralQualifier::Unqualified).unwrap();
    assert_eq!(defaulted, Literal::Simple { value: String::new() });

    let tagged = literal(
        Some(String::from("hallo")),
        LiteralQualifier::Language(String::from("de")),
    )
    .unwrap();
    assert_eq!(
        tagged,
        Literal::LanguageTagged { value: String::from("hallo"), language: String::from("de") }
    );
    assert_eq!(
        literal(
            Some(String::from("x")),
            LiteralQualifier::Language(String::from("!!"))
        ),
        Err(Error::InvalidInput)
    );

    let typed = literal(
        Some(String::from("5")),
        LiteralQualifier::Datatype(AbiTerm::NamedNode(named(
            "http://www.w3.org/2001/XMLSchema#integer",
        ))),
    )
    .unwrap();
    assert!(matches!(typed, Literal::Typed { .. }));

    // A datatype of xsd:string collapses to a simple literal.
    let stringly = literal(
        Some(String::from("s")),
        LiteralQualifier::Datatype(AbiTerm::NamedNode(named(
            "http://www.w3.org/2001/XMLSchema#string",
        ))),
    )
    .unwrap();
    assert_eq!(stringly, Literal::Simple { value: String::from("s") });

    // The datatype must be a named node.
    assert_eq!(
        literal(
            Some(String::from("x")),
            LiteralQualifier::Datatype(AbiTerm::DefaultGraph)
        ),
        Err(Error::InvalidInput)
    );
}

#[test]
fn record_conversion_dispatch() {
    let node = term_from_parts(
        "NamedNode",
        Some(String::from("http://example.com")),
        None,
        None,
    )
    .unwrap();
    assert!(matches!(node, AbiTerm::NamedNode(_)));

    let blank = term_from_parts("BlankNode", Some(String::from("2a")), None, None).unwrap();
    match blank {
        AbiTerm::BlankNode(b) => assert_eq!(b.id, 0x2a),
        _ => panic!("expected a blank node"),
    }
    assert_eq!(
        term_from_parts("BlankNode", Some(String::from("label")), None, None),
        Err(Error::InvalidInput)
    );

    let dg = term_from_parts("DefaultGraph", None, None, None).unwrap();
    assert!(matches!(dg, AbiTerm::DefaultGraph));

    assert_eq!(
        term_from_parts("Variable", Some(String::from("x")), None, None),
        Err(Error::InvalidInput)
    );
    assert_eq!(
        term_from_parts("NamedNode", None, None, None),
        Err(Error::InvalidInput)
    );
}

#[test]
fn record_conversion_literals() {
    let string_dt = AbiTerm::NamedNode(named("http://www.w3.org/2001/XMLSchema#string"));
    let simple = term_from_parts("Literal", Some(String::from("v")), None, Some(string_dt))
        .unwrap();
    match simple {
        AbiTerm::Literal(l) => assert_eq!(l, Literal::Simple { value: String::from("v") }),
        _ => panic!("expected a literal"),
    }

    let lang_dt = AbiTerm::NamedNode(named(
        "http://www.w3.org/1999/02/22-rdf-syntax-ns#langString",
    ));
    let tagged = term_from_parts(
        "Literal",
        Some(String::from("v")),
        Some(String::from("en")),
        Some(lang_dt),
    )
    .unwrap();
    match tagged {
        AbiTerm::Literal(l) => assert_eq!(
            l,
            Literal::LanguageTagged { value: String::from("v"), language: String::from("en") }
        ),
        _ => panic!("expected a literal"),
    }

    // rdf:langString without a language is rejected.
    let lang_dt = AbiTerm::NamedNode(named(
        "http://www.w3.org/1999/02/22-rdf-syntax-ns#langString",
    ));
    assert_eq!(
        term_from_parts("Literal", Some(String::from("v")), None, Some(lang_dt)),
        Err(Error::InvalidInput)
    );

    // The datatype must be a named node.
    assert_eq!(
        term_from_parts(
            "Literal",
            Some(String::from("v")),
            None,
            Some(AbiTerm::DefaultGraph)
        ),
        Err(Error::InvalidInput)
    );
}

#[test]
fn positional_rules() {
    let n = || AbiTerm::NamedNode(named("http://example.com"));
    let lit = || AbiTerm::Literal(Literal::Simple { value: String::from("v") });

    assert!(to_named_node(n()).is_ok());
    assert_eq!(to_named_node(lit()), Err(Error::InvalidInput));

    assert!(to_named_or_blank_node(n()).is_ok());
    assert_eq!(to_named_or_blank_node(lit()), Err(Error::InvalidInput));
    assert_eq!(
        to_named_or_blank_node(AbiTerm::DefaultGraph),
        Err(Error::InvalidInput)
    );

    assert_eq!(
        to_term(lit()).unwrap(),
        Term::Literal(Literal::Simple { value: String::from("v") })
    );
    assert_eq!(to_term(AbiTerm::DefaultGraph), Err(Error::InvalidInput));

    assert_eq!(to_graph_name(default_graph()).unwrap(), None);
    assert!(to_graph_name(n()).unwrap().is_some());
    assert_eq!(to_graph_name(lit()), Err(Error::InvalidInput));
}

#[test]
fn quad_construction() {
    let n = || AbiTerm::NamedNode(named("http://example.com"));
    let lit = || AbiTerm::Literal(Literal::Simple { value: String::from("v") });

    let q = quad_from_terms(n(), n(), lit(), AbiTerm::DefaultGraph).unwrap();
    assert_eq!(q.graph_name, None);

    let named_graph = quad_from_terms(n(), n(), n(), n()).unwrap();
    assert!(named_graph.graph_name.is_some());

    // A literal can be neither subject, predicate nor graph.
    assert_eq!(
        quad_from_terms(lit(), n(), n(), AbiTerm::DefaultGraph),
        Err(Error::InvalidInput)
    );
    assert_eq!(
        quad_from_terms(n(), lit(), n(), AbiTerm::DefaultGraph),
        Err(Error::InvalidInput)
    );
    assert_eq!(quad_from_terms(n(), n(), n(), lit()), Err(Error::InvalidInput));
    // The default graph is not a term.
    assert_eq!(
        quad_from_terms(n(), n(), AbiTerm::DefaultGraph, AbiTerm::DefaultGraph),
        Err(Error::InvalidInput)
    );

    let t = triple_from_terms(n(), n(), lit()).unwrap();
    assert_eq!(t.graph_name, None);
}

#[test]
fn silent_service_yields_single_empty_solution() {
    let failed: Result<Vec<Vec<Option<Term>>>, Error> = Err(Error::InvalidInput);
    let folded = service_outcome(true, failed).unwrap();
    assert_eq!(folded.len(), 1);
    assert!(folded[0].is_empty());
}

#[test]
fn non_silent_service_propagates_error() {
    let failed: Result<Vec<Vec<Option<Term>>>, Error> = Err(Error::InvalidInput);
    assert_eq!(service_outcome(false, failed), Err(Error::InvalidInput));
    let fine: Result<Vec<Vec<Option<Term>>>, Error> = Ok(vec![vec![None]]);
    assert_eq!(service_outcome(false, fine).unwrap(), vec![vec![None]]);
}
