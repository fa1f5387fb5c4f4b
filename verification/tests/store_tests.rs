use quadstore::model::{BlankNode, Literal, NamedNodeBuf, NamedOrBlankNode, Quad, Term, Triple};
use quadstore::store::RocksDbStore;
use quadstore::transaction::RocksDbTransaction;
use quadstore::hash::StrHash;
use quadstore::Error;

fn named(iri: &str) -> NamedNodeBuf {
    NamedNodeBuf::parse(String::from(iri)).unwrap()
}

#[test]
fn store() {
    let main_s = NamedOrBlankNode::BlankNode(BlankNode::new());
    let main_p = named("http://example.com");
    let main_o = Term::Literal(Literal::from_integer(1));

    let main_quad = Quad::new(main_s.clone(), main_p.clone(), main_o.clone(), None);
    let all_o = vec![
        Quad::new(
            main_s.clone(),
            main_p.clone(),
            Term::Literal(Literal::from_integer(0)),
            None,
        ),
        Quad::new(main_s.clone(), main_p.clone(), main_o.clone(), None),
        Quad::new(
            main_s.clone(),
            main_p.clone(),
            Term::Literal(Literal::from_integer(2)),
            None,
        ),
    ];

    let mut store = RocksDbStore::open("store").unwrap();
    store.insert(&main_quad).unwrap();
    for t in &all_o {
        store.insert(t).unwrap();
    }

    let target = vec![main_quad.clone()];
    assert_eq!(
        store.quads_for_pattern(None, None, None, None).unwrap(),
        all_o
    );
    assert_eq!(
        store.quads_for_pattern(Some(&main_s), None, None, None).unwrap(),
        all_o
    );
    assert_eq!(
        store
            .quads_for_pattern(Some(&main_s), Some(&main_p), None, None)
            .unwrap(),
        all_o
    );
    assert_eq!(
        store
            .quads_for_pattern(Some(&main_s), Some(&main_p), Some(&main_o), None)
            .unwrap(),
        target
    );
    assert_eq!(
        store
            .quads_for_pattern(Some(&main_s), Some(&main_p), Some(&main_o), Some(None))
            .unwrap(),
        target
    );
    assert_eq!(
        store
            .quads_for_pattern(Some(&main_s), Some(&main_p), None, Some(None))
            .unwrap(),
        all_o
    );
    assert_eq!(
        store
            .quads_for_pattern(Some(&main_s), None, Some(&main_o), None)
            .unwrap(),
        target
    );
    assert_eq!(
        store
            .quads_for_pattern(Some(&main_s), None, Some(&main_o), Some(None))
            .unwrap(),
        target
    );
    assert_eq!(
        store
            .quads_for_pattern(Some(&main_s), None, None, Some(None))
            .unwrap(),
        all_o
    );
    assert_eq!(
        store.quads_for_pattern(None, Some(&main_p), None, None).unwrap(),
        all_o
    );
    assert_eq!(
        store
            .quads_for_pattern(None, Some(&main_p), Some(&main_o), None)
            .unwrap(),
        target
    );
    assert_eq!(
        store.quads_for_pattern(None, None, Some(&main_o), None).unwrap(),
        target
    );
    assert_eq!(
        store.quads_for_pattern(None, None, None, Some(None)).unwrap(),
        all_o
    );
    assert_eq!(
        store
            .quads_for_pattern(None, Some(&main_p), Some(&main_o), Some(None))
            .unwrap(),
        target
    );
}

#[test]
fn single_quad_round_trip() {
    let ex = named("http://example.com");
    let quad = Quad::new(
        NamedOrBlankNode::NamedNode(ex.clone()),
        ex.clone(),
        Term::NamedNode(ex.clone()),
        None,
    );
    let mut store = RocksDbStore::open("single").unwrap();
    store.insert(&quad).unwrap();
    let found = store.quads_for_pattern(None, None, None, None).unwrap();
    assert_eq!(found, vec![quad.clone()]);
    assert!(store.contains(&quad).unwrap());
}

#[test]
fn named_graph_patterns() {
    let s = NamedOrBlankNode::NamedNode(named("http://example.com/s"));
    let p = named("http://example.com/p");
    let o = Term::NamedNode(named("http://example.com/o"));
    let g = NamedOrBlankNode::NamedNode(named("http://example.com/g"));
    let in_graph = Quad::new(s.clone(), p.clone(), o.clone(), Some(g.clone()));
    let in_default = Quad::new(s.clone(), p.clone(), o.clone(), None);

    let mut store = RocksDbStore::open("graphs").unwrap();
    store.insert(&in_graph).unwrap();
    store.insert(&in_default).unwrap();

    // Absent graph selector: both graphs, default graph first in SPOG key
    // order.
    let both = store.quads_for_pattern(Some(&s), None, None, None).unwrap();
    assert_eq!(both, vec![in_default.clone(), in_graph.clone()]);
    // Default graph only.
    let dflt = store.quads_for_pattern(None, None, None, Some(None)).unwrap();
    assert_eq!(dflt, vec![in_default.clone()]);
    // One named graph only.
    let named_only = store
        .quads_for_pattern(None, None, None, Some(Some(&g)))
        .unwrap();
    assert_eq!(named_only, vec![in_graph.clone()]);
    // Graph plus subject, predicate, object combinations.
    assert_eq!(
        store
            .quads_for_pattern(Some(&s), None, None, Some(Some(&g)))
            .unwrap(),
        vec![in_graph.clone()]
    );
    assert_eq!(
        store
            .quads_for_pattern(None, Some(&p), None, Some(Some(&g)))
            .unwrap(),
        vec![in_graph.clone()]
    );
    assert_eq!(
        store
            .quads_for_pattern(None, None, Some(&o), Some(Some(&g)))
            .unwrap(),
        vec![in_graph.clone()]
    );
    assert_eq!(
        store
            .quads_for_pattern(Some(&s), None, Some(&o), Some(Some(&g)))
            .unwrap(),
        vec![in_graph.clone()]
    );
    assert_eq!(
        store
            .quads_for_pattern(Some(&s), Some(&p), None, Some(Some(&g)))
            .unwrap(),
        vec![in_graph.clone()]
    );
    assert_eq!(
        store
            .quads_for_pattern(None, Some(&p), Some(&o), Some(Some(&g)))
            .unwrap(),
        vec![in_graph.clone()]
    );
}

#[test]
fn blank_subject_counts() {
    let b = NamedOrBlankNode::BlankNode(BlankNode::new());
    let p = named("http://example.com");
    let mut store = RocksDbStore::open("counts").unwrap();
    for v in 0..3i64 {
        let quad = Quad::new(
            b.clone(),
            p.clone(),
            Term::Literal(Literal::from_integer(v)),
            None,
        );
        store.insert(&quad).unwrap();
    }
    let by_subject = store.quads_for_pattern(Some(&b), None, None, None).unwrap();
    assert_eq!(by_subject.len(), 3);
    let one = Term::Literal(Literal::from_integer(1));
    let by_object = store.quads_for_pattern(None, None, Some(&one), None).unwrap();
    assert_eq!(by_object.len(), 1);
}

#[test]
fn remove_clears_all_patterns() {
    let ex = named("http://example.com");
    let quad = Quad::new(
        NamedOrBlankNode::NamedNode(ex.clone()),
        ex.clone(),
        Term::NamedNode(ex.clone()),
        None,
    );
    let mut store = RocksDbStore::open("rm").unwrap();
    store.insert(&quad).unwrap();
    assert!(store.contains(&quad).unwrap());
    store.remove(&quad).unwrap();
    assert!(!store.contains(&quad).unwrap());
    assert!(store.quads_for_pattern(None, None, None, None).unwrap().is_empty());
    let s = NamedOrBlankNode::NamedNode(ex.clone());
    assert!(store.quads_for_pattern(Some(&s), None, None, None).unwrap().is_empty());
}

#[test]
fn transaction_commits_batch() {
    let ex = named("http://example.com");
    let q1 = Quad::new(
        NamedOrBlankNode::NamedNode(ex.clone()),
        ex.clone(),
        Term::NamedNode(named("http://example.com/one")),
        None,
    );
    let q2 = Quad::new(
        NamedOrBlankNode::NamedNode(ex.clone()),
        ex.clone(),
        Term::NamedNode(named("http://example.com/two")),
        None,
    );
    let mut store = RocksDbStore::open("tx").unwrap();
    let q1c = q1.clone();
    let q2c = q2.clone();
    store
        .transaction(move |mut tx| {
            tx.insert(&q1c)?;
            tx.insert(&q2c)?;
            Ok(tx)
        })
        .unwrap();
    assert!(store.contains(&q1).unwrap());
    assert!(store.contains(&q2).unwrap());
}

#[test]
fn failed_transaction_changes_nothing() {
    let ex = named("http://example.com");
    let existing = Quad::new(
        NamedOrBlankNode::NamedNode(ex.clone()),
        ex.clone(),
        Term::NamedNode(ex.clone()),
        None,
    );
    let extra = Quad::new(
        NamedOrBlankNode::NamedNode(ex.clone()),
        ex.clone(),
        Term::NamedNode(named("http://example.com/extra")),
        None,
    );
    let mut store = RocksDbStore::open("atomic").unwrap();
    store.insert(&existing).unwrap();
    let before = store.quads_for_pattern(None, None, None, None).unwrap();

    let extra_clone = extra.clone();
    let outcome = store.transaction(move |mut tx| {
        tx.insert(&extra_clone)?;
        Err(Error::InvalidInput)
    });
    assert_eq!(outcome, Err(Error::InvalidInput));

    let after = store.quads_for_pattern(None, None, None, None).unwrap();
    assert_eq!(before, after);
    assert!(!store.contains(&extra).unwrap());
}

#[test]
fn hash_collision_rejected() {
    // Two different strings staged under one hash must abort the commit
    // and leave the store unchanged.
    let mut store = RocksDbStore::open("collision").unwrap();
    let hash = StrHash { hash: 42 };

    let mut tx = RocksDbTransaction::new();
    tx.insert_str(hash, "first").unwrap();
    tx.commit(&mut store).unwrap();
    assert_eq!(store.get_str(hash).unwrap().unwrap(), "first");

    let before = store.quads_for_pattern(None, None, None, None).unwrap();
    let mut tx = RocksDbTransaction::new();
    tx.insert_str(hash, "second").unwrap();
    assert_eq!(tx.commit(&mut store), Err(Error::HashCollision));
    assert_eq!(store.get_str(hash).unwrap().unwrap(), "first");
    assert_eq!(store.quads_for_pattern(None, None, None, None).unwrap(), before);

    // Re-staging the equal pair is a harmless no-op.
    let mut tx = RocksDbTransaction::new();
    tx.insert_str(hash, "first").unwrap();
    tx.commit(&mut store).unwrap();
    assert_eq!(store.get_str(hash).unwrap().unwrap(), "first");
}

#[test]
fn distinct_strings_hash_apart() {
    // Would fail if the string hash collapsed distinct inputs.
    let a = quadstore::hash::StrHash::new("a");
    let b = quadstore::hash::StrHash::new("b");
    assert_ne!(a.hash, b.hash);
    let mut store = RocksDbStore::open("hashes").unwrap();
    let s = NamedOrBlankNode::NamedNode(named("http://example.com/s"));
    let p = named("http://example.com/p");
    let qa = Quad::new(
        s.clone(),
        p.clone(),
        Term::Literal(Literal::Simple { value: String::from("a") }),
        None,
    );
    let qb = Quad::new(
        s.clone(),
        p.clone(),
        Term::Literal(Literal::Simple { value: String::from("b") }),
        None,
    );
    store.insert(&qa).unwrap();
    store.insert(&qb).unwrap();
    let oa = Term::Literal(Literal::Simple { value: String::from("a") });
    assert_eq!(
        store.quads_for_pattern(None, None, Some(&oa), None).unwrap(),
        vec![qa.clone()]
    );
}

#[test]
fn fresh_blank_nodes_differ() {
    let a = BlankNode::new();
    let b = BlankNode::new();
    assert_ne!(a.id, b.id);
}

#[test]
fn seeded_dictionary_resolves() {
    let store = RocksDbStore::open("seed").unwrap();
    let key = StrHash::new("http://www.w3.org/2001/XMLSchema#integer");
    assert_eq!(
        store.get_str(key).unwrap().unwrap(),
        "http://www.w3.org/2001/XMLSchema#integer"
    );
    let empty = StrHash::new("");
    assert_eq!(store.get_str(empty).unwrap().unwrap(), "");
}

#[test]
fn load_graph_targets_graph() {
    let s = NamedOrBlankNode::NamedNode(named("http://example.com/s"));
    let p = named("http://example.com/p");
    let o = Term::NamedNode(named("http://example.com/o"));
    let triples = vec![Triple::new(s.clone(), p.clone(), o.clone())];
    let g = NamedOrBlankNode::NamedNode(named("http://example.com/g"));

    let mut store = RocksDbStore::open("loadg").unwrap();
    store.load_graph(&triples, None).unwrap();
    let expected_default = Quad::new(s.clone(), p.clone(), o.clone(), None);
    assert!(store.contains(&expected_default).unwrap());

    store.load_graph(&triples, Some(&g)).unwrap();
    let expected_named = Quad::new(s.clone(), p.clone(), o.clone(), Some(g.clone()));
    assert!(store.contains(&expected_named).unwrap());
}

#[test]
fn load_dataset_inserts_quads() {
    let s = NamedOrBlankNode::NamedNode(named("http://example.com/s"));
    let p = named("http://example.com/p");
    let quads = vec![
        Quad::new(
            s.clone(),
            p.clone(),
            Term::NamedNode(named("http://example.com/o1")),
            None,
        ),
        Quad::new(
            s.clone(),
            p.clone(),
            Term::NamedNode(named("http://example.com/o2")),
            None,
        ),
    ];
    let mut store = RocksDbStore::open("loadd").unwrap();
    store.load_dataset(&quads).unwrap();
    assert!(store.contains(&quads[0]).unwrap());
    assert!(store.contains(&quads[1]).unwrap());
    assert_eq!(store.quads_for_pattern(None, None, None, None).unwrap().len(), 2);
}

#[test]
fn bulk_load_crosses_flush_threshold() {
    // More buffered operations than the auto-commit bound, in one load.
    let s = NamedOrBlankNode::NamedNode(named("http://example.com/s"));
    let p = named("http://example.com/p");
    let mut quads = Vec::new();
    for v in 0..600i64 {
        quads.push(Quad::new(
            s.clone(),
            p.clone(),
            Term::Literal(Literal::from_integer(v)),
            None,
        ));
    }
    let mut store = RocksDbStore::open("bulk").unwrap();
    store.load_dataset(&quads).unwrap();
    assert_eq!(
        store.quads_for_pattern(Some(&s), None, None, None).unwrap().len(),
        600
    );
}

#[test]
fn dangling_hash_reports_corruption() {
    // An encoded quad written without its dictionary entries cannot be
    // decoded back to terms.
    let mut store = RocksDbStore::open("corrupt").unwrap();
    let dangling = quadstore::encoded::EncodedQuad::new(
        quadstore::encoded::EncodedTerm::NamedNode { iri_id: 0xdead },
        quadstore::encoded::EncodedTerm::NamedNode { iri_id: 0xbeef },
        quadstore::encoded::EncodedTerm::NamedNode { iri_id: 0xf00d },
        quadstore::encoded::EncodedTerm::DefaultGraph,
    );
    let mut tx = RocksDbTransaction::new();
    tx.insert_encoded(&dangling).unwrap();
    tx.commit(&mut store).unwrap();
    assert_eq!(
        store.quads_for_pattern(None, None, None, None),
        Err(Error::Corruption)
    );
}
