use quadstore::encoded::{
    EncodedQuad, EncodedTerm, TYPE_DEFAULT_GRAPH_ID, TYPE_INTEGER_LITERAL, TYPE_NAMED_NODE_ID,
    WRITTEN_TERM_MAX_SIZE,
};
use quadstore::lexical::{
    boolean_to_string, integer_to_string, parse_boolean, parse_hex_u128, parse_integer, str_eq,
};
use quadstore::model::{
    check_iri, check_language, BlankNode, Literal, NamedNodeBuf, NamedOrBlankNode, Quad, Term,
    xsd_integer,
};
use quadstore::store::{encode_term, encode_term_pair, RocksDbStore};

fn named(iri: &str) -> NamedNodeBuf {
    NamedNodeBuf::parse(String::from(iri)).unwrap()
}

#[test]
fn integer_parsing_is_exact() {
    assert_eq!(parse_integer("0"), Some(0));
    assert_eq!(parse_integer("042"), Some(42));
    assert_eq!(parse_integer("+5"), Some(5));
    assert_eq!(parse_integer("-17"), Some(-17));
    assert_eq!(parse_integer("9223372036854775807"), Some(i64::MAX));
    assert_eq!(parse_integer("-9223372036854775808"), Some(i64::MIN));
    assert_eq!(parse_integer("9223372036854775808"), None);
    assert_eq!(parse_integer("-9223372036854775809"), None);
    assert_eq!(parse_integer("99999999999999999999"), None);
    assert_eq!(parse_integer("00000000000000000000042"), Some(42));
    assert_eq!(parse_integer(""), None);
    assert_eq!(parse_integer("-"), None);
    assert_eq!(parse_integer("+"), None);
    assert_eq!(parse_integer("1.5"), None);
    assert_eq!(parse_integer("abc"), None);
}

#[test]
fn integer_printing_is_canonical() {
    assert_eq!(integer_to_string(0), "0");
    assert_eq!(integer_to_string(42), "42");
    assert_eq!(integer_to_string(-17), "-17");
    assert_eq!(integer_to_string(i64::MAX), "9223372036854775807");
    assert_eq!(integer_to_string(i64::MIN), "-9223372036854775808");
}

#[test]
fn boolean_lexemes() {
    assert_eq!(parse_boolean("true"), Some(true));
    assert_eq!(parse_boolean("1"), Some(true));
    assert_eq!(parse_boolean("false"), Some(false));
    assert_eq!(parse_boolean("0"), Some(false));
    assert_eq!(parse_boolean("TRUE"), None);
    assert_eq!(parse_boolean(""), None);
    assert_eq!(boolean_to_string(true), "true");
    assert_eq!(boolean_to_string(false), "false");
}

#[test]
fn hex_labels() {
    assert_eq!(parse_hex_u128("0"), Some(0));
    assert_eq!(parse_hex_u128("ff"), Some(255));
    assert_eq!(parse_hex_u128("0A"), Some(10));
    assert_eq!(parse_hex_u128("+10"), Some(16));
    assert_eq!(
        parse_hex_u128("ffffffffffffffffffffffffffffffff"),
        Some(u128::MAX)
    );
    assert_eq!(parse_hex_u128("100000000000000000000000000000000"), None);
    assert_eq!(parse_hex_u128("0x12"), None);
    assert_eq!(parse_hex_u128(""), None);
    assert_eq!(parse_hex_u128("+"), None);
    assert_eq!(parse_hex_u128("12g"), None);
}

#[test]
fn iri_validation() {
    assert!(check_iri("http://example.com"));
    assert!(check_iri("urn:uuid:1234"));
    assert!(check_iri("a+b-c.d:rest"));
    assert!(!check_iri(""));
    assert!(!check_iri("no-colon-here"));
    assert!(!check_iri("1http://example.com"));
    assert!(!check_iri("http://exa mple.com"));
    assert!(!check_iri("http://example.com/<>"));
    assert!(NamedNodeBuf::parse(String::from("not an iri")).is_err());
}

#[test]
fn language_validation() {
    assert!(check_language("en"));
    assert!(check_language("en-US"));
    assert!(check_language("de-CH-1996"));
    assert!(!check_language(""));
    assert!(!check_language("42"));
    assert!(!check_language("-en"));
    assert!(!check_language("en-"));
    assert!(!check_language("en--US"));
    assert!(Literal::new_language_tagged_literal(String::from("hi"), String::from("en")).is_ok());
    assert!(
        Literal::new_language_tagged_literal(String::from("hi"), String::from("!!")).is_err()
    );
}

#[test]
fn string_typed_literal_collapses_to_simple() {
    let l = Literal::new_typed_literal(
        String::from("hello"),
        named("http://www.w3.org/2001/XMLSchema#string"),
    );
    assert_eq!(l, Literal::Simple { value: String::from("hello") });
}

#[test]
fn term_block_layout() {
    let block = encode_term(EncodedTerm::DefaultGraph);
    assert_eq!(block.len(), WRITTEN_TERM_MAX_SIZE);
    assert_eq!(block[0], TYPE_DEFAULT_GRAPH_ID);
    assert!(block.iter().skip(1).all(|b| *b == 0));

    let block = encode_term(EncodedTerm::NamedNode { iri_id: 0x0102 });
    assert_eq!(block.len(), 33);
    assert_eq!(block[0], TYPE_NAMED_NODE_ID);
    // Little-endian payload: low byte first.
    assert_eq!(block[1], 0x02);
    assert_eq!(block[2], 0x01);
    assert_eq!(block[3], 0);

    let block = encode_term(EncodedTerm::IntegerLiteral { value: 5 });
    assert_eq!(block[0], TYPE_INTEGER_LITERAL);
    assert_eq!(block[1], 5);
    assert!(block.iter().skip(2).all(|b| *b == 0));

    let pair = encode_term_pair(
        EncodedTerm::DefaultGraph,
        EncodedTerm::IntegerLiteral { value: 1 },
    );
    assert_eq!(pair.len(), 66);
    assert_eq!(pair[33], TYPE_INTEGER_LITERAL);
}

#[test]
fn quad_key_is_fixed_width() {
    let quad = EncodedQuad::new(
        EncodedTerm::BlankNode { id: 7 },
        EncodedTerm::NamedNode { iri_id: 9 },
        EncodedTerm::IntegerLiteral { value: -1 },
        EncodedTerm::DefaultGraph,
    );
    let mut key: Vec<u8> = Vec::new();
    quadstore::encoded::write_spog_quad(&mut key, &quad);
    assert_eq!(key.len(), 132);
    let back = quadstore::encoded::read_spog_quad(&key).unwrap();
    assert_eq!(back, quad);
    let mut posg: Vec<u8> = Vec::new();
    quadstore::encoded::write_posg_quad(&mut posg, &quad);
    assert_eq!(quadstore::encoded::read_posg_quad(&posg).unwrap(), quad);
}

#[test]
fn numeric_literals_round_trip_by_value() {
    // A non-canonical integer lexeme is stored by value and comes back in
    // canonical spelling; other literals come back exactly.
    let s = NamedOrBlankNode::NamedNode(named("http://example.com/s"));
    let p = named("http://example.com/p");
    let raw = Quad::new(
        s.clone(),
        p.clone(),
        Term::Literal(Literal::new_typed_literal(String::from("01"), xsd_integer())),
        None,
    );
    let mut store = RocksDbStore::open("canon").unwrap();
    store.insert(&raw).unwrap();
    let found = store.quads_for_pattern(Some(&s), None, None, None).unwrap();
    let canonical = Quad::new(
        s.clone(),
        p.clone(),
        Term::Literal(Literal::new_typed_literal(String::from("1"), xsd_integer())),
        None,
    );
    assert_eq!(found, vec![canonical.clone()]);
    // Value-based lookup: the raw and canonical spellings denote the same
    // stored quad.
    assert!(store.contains(&raw).unwrap());
    assert!(store.contains(&canonical).unwrap());
}

#[test]
fn boolean_literals_round_trip_by_value() {
    let s = NamedOrBlankNode::NamedNode(named("http://example.com/s"));
    let p = named("http://example.com/p");
    let xsd_boolean = named("http://www.w3.org/2001/XMLSchema#boolean");
    let raw = Quad::new(
        s.clone(),
        p.clone(),
        Term::Literal(Literal::new_typed_literal(String::from("1"), xsd_boolean.clone())),
        None,
    );
    let mut store = RocksDbStore::open("bools").unwrap();
    store.insert(&raw).unwrap();
    let found = store.quads_for_pattern(Some(&s), None, None, None).unwrap();
    let canonical = Quad::new(
        s.clone(),
        p.clone(),
        Term::Literal(Literal::new_typed_literal(String::from("true"), xsd_boolean.clone())),
        None,
    );
    assert_eq!(found, vec![canonical]);
}

#[test]
fn non_numeric_terms_round_trip_exactly() {
    let s = NamedOrBlankNode::BlankNode(BlankNode::new_from_unique_id(0xabcdef));
    let p = named("http://example.com/p");
    let lang = Literal::new_language_tagged_literal(String::from("hallo"), String::from("de"))
        .unwrap();
    let quad = Quad::new(s.clone(), p.clone(), Term::Literal(lang), None);
    let mut store = RocksDbStore::open("exact").unwrap();
    store.insert(&quad).unwrap();
    assert_eq!(
        store.quads_for_pattern(Some(&s), None, None, None).unwrap(),
        vec![quad.clone()]
    );
    // An oversized integer lexeme cannot be inlined and round-trips
    // lexically.
    let big = Quad::new(
        s.clone(),
        p.clone(),
        Term::Literal(Literal::new_typed_literal(
            String::from("99999999999999999999"),
            xsd_integer(),
        )),
        None,
    );
    store.insert(&big).unwrap();
    assert!(store.contains(&big).unwrap());
}

#[test]
fn str_eq_behaves_like_equality() {
    assert!(str_eq("", ""));
    assert!(str_eq("abc", "abc"));
    assert!(!str_eq("abc", "abd"));
    assert!(!str_eq("abc", "ab"));
}
