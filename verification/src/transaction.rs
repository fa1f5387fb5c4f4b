//! Buffered writes and their semantics.
//!
//! A transaction accumulates dictionary inserts and quad writes as a batch
//! of operations; nothing touches the store until the batch is committed,
//! and a commit applies either the whole batch or, on a hash collision,
//! nothing. The auto-commit variant used by the bulk loaders flushes its
//! buffer whenever it exceeds [`MAX_TRANSACTION_SIZE`] operations, trading
//! whole-load atomicity for bounded memory.

use vstd::prelude::*;

use crate::{Error, StoreView};
use crate::codec::{
    canon_quad, decode_quad_spec, dict_covers_quad, encoded_quad_of, get_encoded_quad_parts,
    inline_boolean, inline_integer, lemma_quad_round_trip, pairs_view, stage_quad_parts,
    staged_graph, staged_literal, staged_named_or_blank, staged_quad, staged_term,
};
use crate::encoded::EncodedQuad;
use crate::hash::{StrHash, str_hash};
use crate::model::{
    LiteralV, NamedNodeBuf, NamedOrBlankNode, NamedOrBlankNodeV, Quad, QuadV, Term, TermV, Triple,
    TripleV, rdf_lang_string_iri, xsd_boolean_iri, xsd_integer_iri, xsd_string_iri,
};
use crate::store::RocksDbStore;

verus! {

/// The number of buffered operations above which an auto-commit
/// transaction flushes.
pub const MAX_TRANSACTION_SIZE: usize = 1024;

/// One buffered write.
pub enum BatchOp {
    /// Stage a hash-to-string pair for the dictionary.
    InsertString {
        /// The 128-bit hash.
        hash: u128,
        /// The string it stands for.
        value: String,
    },
    /// Write the six permutation keys of a quad.
    InsertQuad {
        /// The quad.
        quad: EncodedQuad,
    },
    /// Delete the six permutation keys of a quad.
    RemoveQuad {
        /// The quad.
        quad: EncodedQuad,
    },
}

/// The mathematical image of a buffered write.
pub enum BatchOpV {
    /// Stage a hash-to-string pair for the dictionary.
    InsertString { hash: u128, value: Seq<char> },
    /// Write the six permutation keys of a quad.
    InsertQuad { quad: EncodedQuad },
    /// Delete the six permutation keys of a quad.
    RemoveQuad { quad: EncodedQuad },
}

impl View for BatchOp {
    type V = BatchOpV;

    open spec fn view(&self) -> BatchOpV {
        match self {
            BatchOp::InsertString { hash, value } => BatchOpV::InsertString {
                hash: *hash,
                value: value@,
            },
            BatchOp::InsertQuad { quad } => BatchOpV::InsertQuad { quad: *quad },
            BatchOp::RemoveQuad { quad } => BatchOpV::RemoveQuad { quad: *quad },
        }
    }
}

/// The view of a batch.
pub open spec fn ops_view(s: Seq<BatchOp>) -> Seq<BatchOpV> {
    s.map_values(|op: BatchOp| op@)
}

/// The store state after one operation.
pub open spec fn apply_op(v: StoreView, op: BatchOpV) -> StoreView {
    match op {
        BatchOpV::InsertString { hash, value } => StoreView {
            quads: v.quads,
            strings: v.strings.insert(hash, value),
        },
        BatchOpV::InsertQuad { quad } => StoreView {
            quads: v.quads.insert(quad),
            strings: v.strings,
        },
        BatchOpV::RemoveQuad { quad } => StoreView {
            quads: v.quads.remove(quad),
            strings: v.strings,
        },
    }
}

/// The store state after a batch, applied in order.
pub open spec fn apply_ops(v: StoreView, ops: Seq<BatchOpV>) -> StoreView
    decreases ops.len(),
{
    if ops.len() == 0 {
        v
    } else {
        apply_op(apply_ops(v, ops.drop_last()), ops.last())
    }
}

/// Whether one operation is acceptable in a given state: a dictionary
/// insert must not collide; quad writes always apply.
pub open spec fn op_ok(v: StoreView, op: BatchOpV) -> bool {
    match op {
        BatchOpV::InsertString { hash, value } => v.strings.contains_key(hash) ==> v.strings[hash]
            == value,
        _ => true,
    }
}

/// Whether a whole batch applies without a hash collision.
pub open spec fn ops_ok(v: StoreView, ops: Seq<BatchOpV>) -> bool
    decreases ops.len(),
{
    if ops.len() == 0 {
        true
    } else {
        ops_ok(v, ops.drop_last()) && op_ok(apply_ops(v, ops.drop_last()), ops.last())
    }
}

/// Applying a concatenation applies the parts in order.
pub proof fn lemma_apply_ops_concat(v: StoreView, a: Seq<BatchOpV>, b: Seq<BatchOpV>)
    ensures
        apply_ops(v, a + b) == apply_ops(apply_ops(v, a), b),
    decreases b.len(),
{
    if b.len() == 0 {
        assert(a + b =~= a);
    } else {
        assert((a + b).drop_last() =~= a + b.drop_last());
        lemma_apply_ops_concat(v, a, b.drop_last());
    }
}

/// A concatenation applies cleanly exactly when both parts do, the second
/// against the state the first produced.
pub proof fn lemma_ops_ok_concat(v: StoreView, a: Seq<BatchOpV>, b: Seq<BatchOpV>)
    ensures
        ops_ok(v, a + b) == (ops_ok(v, a) && ops_ok(apply_ops(v, a), b)),
    decreases b.len(),
{
    if b.len() == 0 {
        assert(a + b =~= a);
    } else {
        assert((a + b).drop_last() =~= a + b.drop_last());
        lemma_ops_ok_concat(v, a, b.drop_last());
        lemma_apply_ops_concat(v, a, b.drop_last());
    }
}

/// The dictionary-insert operations of a sequence of staged pairs.
pub open spec fn string_ops(pairs: Seq<(u128, Seq<char>)>) -> Seq<BatchOpV> {
    pairs.map_values(|p: (u128, Seq<char>)| BatchOpV::InsertString { hash: p.0, value: p.1 })
}

/// A map extended with staged pairs, in order.
pub open spec fn strings_with_pairs(
    m: Map<u128, Seq<char>>,
    pairs: Seq<(u128, Seq<char>)>,
) -> Map<u128, Seq<char>>
    decreases pairs.len(),
{
    if pairs.len() == 0 {
        m
    } else {
        strings_with_pairs(m, pairs.drop_last()).insert(pairs.last().0, pairs.last().1)
    }
}

/// Whether staged pairs insert without collision, in order.
pub open spec fn pairs_ok(m: Map<u128, Seq<char>>, pairs: Seq<(u128, Seq<char>)>) -> bool
    decreases pairs.len(),
{
    if pairs.len() == 0 {
        true
    } else {
        pairs_ok(m, pairs.drop_last()) && (strings_with_pairs(m, pairs.drop_last()).contains_key(
            pairs.last().0,
        ) ==> strings_with_pairs(m, pairs.drop_last())[pairs.last().0] == pairs.last().1)
    }
}

/// Dictionary-insert operations only touch the strings, exactly as
/// `strings_with_pairs` says, and collide exactly as `pairs_ok` says.
pub proof fn lemma_string_ops_apply(v: StoreView, pairs: Seq<(u128, Seq<char>)>)
    ensures
        apply_ops(v, string_ops(pairs)) == (StoreView {
            quads: v.quads,
            strings: strings_with_pairs(v.strings, pairs),
        }),
        ops_ok(v, string_ops(pairs)) == pairs_ok(v.strings, pairs),
    decreases pairs.len(),
{
    if pairs.len() == 0 {
    } else {
        assert(string_ops(pairs).drop_last() =~= string_ops(pairs.drop_last()));
        lemma_string_ops_apply(v, pairs.drop_last());
    }
}

/// The operations that insert one quad: its staged strings, then its six
/// keys.
pub open spec fn quad_ops(q: QuadV) -> Seq<BatchOpV> {
    string_ops(staged_quad(q)) + seq![BatchOpV::InsertQuad { quad: encoded_quad_of(q) }]
}

/// Inserting one quad adds it to the quad set and stages its strings, and
/// succeeds exactly when the staged pairs do not collide.
pub proof fn lemma_quad_ops_apply(v: StoreView, q: QuadV)
    ensures
        apply_ops(v, quad_ops(q)) == (StoreView {
            quads: v.quads.insert(encoded_quad_of(q)),
            strings: strings_with_pairs(v.strings, staged_quad(q)),
        }),
        ops_ok(v, quad_ops(q)) == pairs_ok(v.strings, staged_quad(q)),
{
    let tail = seq![BatchOpV::InsertQuad { quad: encoded_quad_of(q) }];
    let head = string_ops(staged_quad(q));
    assert(quad_ops(q) == head + tail);
    lemma_apply_ops_concat(v, head, tail);
    lemma_ops_ok_concat(v, head, tail);
    lemma_string_ops_apply(v, staged_quad(q));
    let mid = apply_ops(v, head);
    assert(tail.len() == 1);
    assert(tail.drop_last() =~= Seq::<BatchOpV>::empty());
    assert(tail.drop_last().len() == 0);
    assert(apply_ops(mid, tail.drop_last()) == mid);
    assert(apply_ops(mid, tail) == apply_op(mid, tail.last()));
    assert(tail.last() == BatchOpV::InsertQuad { quad: encoded_quad_of(q) });
    assert(ops_ok(mid, tail.drop_last()));
    assert(op_ok(apply_ops(mid, tail.drop_last()), tail.last()));
    assert(ops_ok(mid, tail));
}

/// A batch of staged pairs that applies without collision resolves every
/// one of its pairs in the resulting map: a later pair under the same hash
/// must carry the same string, so nothing is overwritten.
proof fn lemma_pairs_covered(m: Map<u128, Seq<char>>, pairs: Seq<(u128, Seq<char>)>)
    requires
        pairs_ok(m, pairs),
    ensures
        forall|i: int|
            0 <= i < pairs.len() ==> strings_with_pairs(m, pairs).contains_key(
                (#[trigger] pairs[i]).0,
            ) && strings_with_pairs(m, pairs)[pairs[i].0] == pairs[i].1,
    decreases pairs.len(),
{
    if pairs.len() > 0 {
        lemma_pairs_covered(m, pairs.drop_last());
        let prior = strings_with_pairs(m, pairs.drop_last());
        assert forall|i: int|
            0 <= i < pairs.len() implies strings_with_pairs(m, pairs).contains_key(
            (#[trigger] pairs[i]).0,
        ) && strings_with_pairs(m, pairs)[pairs[i].0] == pairs[i].1 by {
            if i < pairs.len() - 1 {
                assert(pairs.drop_last()[i] == pairs[i]);
                if pairs[i].0 == pairs.last().0 {
                    assert(prior.contains_key(pairs.last().0));
                }
            }
        }
    }
}

/// The pairs a quad stages, applied without collision, resolve every
/// string its encoding refers to.
pub proof fn lemma_staged_quad_covers(m: Map<u128, Seq<char>>, q: QuadV)
    requires
        pairs_ok(m, staged_quad(q)),
    ensures
        dict_covers_quad(strings_with_pairs(m, staged_quad(q)), q),
{
    let pairs = staged_quad(q);
    lemma_pairs_covered(m, pairs);
    let a = staged_named_or_blank(q.subject);
    let c = staged_term(q.object);
    let al = a.len() as int;
    match q.subject {
        NamedOrBlankNodeV::NamedNode(iri) => {
            assert(pairs[0] == (str_hash(iri), iri));
        },
        NamedOrBlankNodeV::BlankNode(_) => {},
    }
    assert(pairs[al] == (str_hash(q.predicate), q.predicate));
    let base = al + 1;
    match q.object {
        TermV::NamedNode(iri) => {
            assert(pairs[base] == (str_hash(iri), iri));
        },
        TermV::BlankNode(_) => {},
        TermV::Literal(l) => {
            match l {
                LiteralV::Simple { value } => {
                    assert(pairs[base] == (str_hash(value), value));
                },
                LiteralV::LanguageTagged { value, language } => {
                    assert(pairs[base] == (str_hash(value), value));
                    assert(pairs[base + 1] == (str_hash(language), language));
                },
                LiteralV::Typed { value, datatype } => {
                    if !(inline_boolean(value, datatype) || inline_integer(value, datatype)) {
                        assert(pairs[base] == (str_hash(value), value));
                        assert(pairs[base + 1] == (str_hash(datatype), datatype));
                    }
                },
            }
        },
    }
    match q.graph_name {
        Option::Some(NamedOrBlankNodeV::NamedNode(iri)) => {
            assert(pairs[base + c.len()] == (str_hash(iri), iri));
        },
        _ => {},
    }
}

/// A quad inserted through the store decodes back to its canonical form,
/// and that canonical form re-encodes to the stored key: a successful
/// insert stages exactly the strings its encoding needs, the resulting
/// dictionary resolves them, and canonicalization preserves the encoding.
/// With pattern completeness this makes a quad inserted through the store
/// retrievable by every pattern bound to its slots, and every quad so
/// retrieved is contained in the store when re-encoded.
pub proof fn lemma_inserted_quad_round_trip(v: StoreView, q: QuadV)
    requires
        pairs_ok(v.strings, staged_quad(q)),
    ensures
        decode_quad_spec(
            encoded_quad_of(q),
            strings_with_pairs(v.strings, staged_quad(q)),
        ) == Some(canon_quad(q)),
        encoded_quad_of(canon_quad(q)) == encoded_quad_of(q),
{
    lemma_staged_quad_covers(v.strings, q);
    lemma_quad_round_trip(q, strings_with_pairs(v.strings, staged_quad(q)));
    crate::codec::lemma_canon_quad_encodes_same(q);
}

/// The quad a loaded triple becomes in a target graph.
pub open spec fn quad_of_triple(t: TripleV, g: Option<NamedOrBlankNodeV>) -> QuadV {
    QuadV { subject: t.subject, predicate: t.predicate, object: t.object, graph_name: g }
}

/// The operations of a whole graph load into a target graph.
pub open spec fn graph_load_ops(ts: Seq<TripleV>, g: Option<NamedOrBlankNodeV>) -> Seq<BatchOpV>
    decreases ts.len(),
{
    if ts.len() == 0 {
        Seq::empty()
    } else {
        graph_load_ops(ts.drop_last(), g) + quad_ops(quad_of_triple(ts.last(), g))
    }
}

/// The operations of a whole dataset load.
pub open spec fn dataset_load_ops(qs: Seq<QuadV>) -> Seq<BatchOpV>
    decreases qs.len(),
{
    if qs.len() == 0 {
        Seq::empty()
    } else {
        dataset_load_ops(qs.drop_last()) + quad_ops(qs.last())
    }
}

/// The operations of a shorter graph load lead every longer one.
pub proof fn lemma_graph_load_ops_prefix(ts: Seq<TripleV>, g: Option<NamedOrBlankNodeV>, i: int)
    requires
        0 <= i <= ts.len(),
    ensures
        graph_load_ops(ts.take(i), g).is_prefix_of(graph_load_ops(ts, g)),
    decreases ts.len(),
{
    if i == ts.len() {
        assert(ts.take(i) =~= ts);
    } else {
        assert(ts.drop_last().take(i) =~= ts.take(i));
        lemma_graph_load_ops_prefix(ts.drop_last(), g, i);
        let a = graph_load_ops(ts.take(i), g);
        let b = graph_load_ops(ts.drop_last(), g);
        let c = quad_ops(quad_of_triple(ts.last(), g));
        assert(a =~= (b + c).subrange(0, a.len() as int));
    }
}

/// The operations of a shorter dataset load lead every longer one.
pub proof fn lemma_dataset_load_ops_prefix(qs: Seq<QuadV>, i: int)
    requires
        0 <= i <= qs.len(),
    ensures
        dataset_load_ops(qs.take(i)).is_prefix_of(dataset_load_ops(qs)),
    decreases qs.len(),
{
    if i == qs.len() {
        assert(qs.take(i) =~= qs);
    } else {
        assert(qs.drop_last().take(i) =~= qs.take(i));
        lemma_dataset_load_ops_prefix(qs.drop_last(), i);
        let a = dataset_load_ops(qs.take(i));
        let b = dataset_load_ops(qs.drop_last());
        let c = quad_ops(qs.last());
        assert(a =~= (b + c).subrange(0, a.len() as int));
    }
}

/// The pairs the dictionary seed stages: the empty string and the
/// well-known IRIs the inline term tags rely on.
pub open spec fn seed_pairs() -> Seq<(u128, Seq<char>)> {
    seq![
        (str_hash(""@), ""@),
        (str_hash(xsd_string_iri()), xsd_string_iri()),
        (str_hash(rdf_lang_string_iri()), rdf_lang_string_iri()),
        (str_hash(xsd_boolean_iri()), xsd_boolean_iri()),
        (str_hash(xsd_integer_iri()), xsd_integer_iri()),
    ]
}

/// The operations of the dictionary seed.
pub open spec fn seed_ops() -> Seq<BatchOpV> {
    string_ops(seed_pairs())
}

/// The buffer shared by the two transaction modes.
pub struct RocksDbInnerTransaction {
    ops: Vec<BatchOp>,
}

impl View for RocksDbInnerTransaction {
    type V = Seq<BatchOpV>;

    closed spec fn view(&self) -> Seq<BatchOpV> {
        ops_view(self.ops@)
    }
}

impl RocksDbInnerTransaction {
    /// An empty buffer.
    pub fn new() -> (r: RocksDbInnerTransaction)
        ensures
            r@ == Seq::<BatchOpV>::empty(),
    {
        let r = RocksDbInnerTransaction { ops: Vec::new() };
        proof {
            assert(r@ =~= Seq::<BatchOpV>::empty());
        }
        r
    }

    /// Stages one hash-to-string pair.
    pub fn insert_str(&mut self, key: StrHash, value: &str) -> (r: Result<(), Error>)
        ensures
            final(self)@ == old(self)@.push(
                BatchOpV::InsertString { hash: key.hash, value: value@ },
            ),
            r == Ok::<(), Error>(()),
    {
        self.ops.push(BatchOp::InsertString { hash: key.hash, value: value.to_owned() });
        proof {
            assert(self@ =~= old(self)@.push(
                BatchOpV::InsertString { hash: key.hash, value: value@ },
            ));
        }
        Ok(())
    }

    /// Buffers the six permutation writes of a quad.
    pub fn insert(&mut self, quad: &EncodedQuad) -> (r: Result<(), Error>)
        ensures
            final(self)@ == old(self)@.push(BatchOpV::InsertQuad { quad: *quad }),
            r == Ok::<(), Error>(()),
    {
        self.ops.push(BatchOp::InsertQuad { quad: *quad });
        proof {
            assert(self@ =~= old(self)@.push(BatchOpV::InsertQuad { quad: *quad }));
        }
        Ok(())
    }

    /// Buffers the six permutation deletes of a quad.
    pub fn remove(&mut self, quad: &EncodedQuad) -> (r: Result<(), Error>)
        ensures
            final(self)@ == old(self)@.push(BatchOpV::RemoveQuad { quad: *quad }),
            r == Ok::<(), Error>(()),
    {
        self.ops.push(BatchOp::RemoveQuad { quad: *quad });
        proof {
            assert(self@ =~= old(self)@.push(BatchOpV::RemoveQuad { quad: *quad }));
        }
        Ok(())
    }

    /// Encodes a quad given by its parts, stages its strings, and buffers
    /// its six permutation writes.
    fn insert_quad_parts(
        &mut self,
        subject: &NamedOrBlankNode,
        predicate: &NamedNodeBuf,
        object: &Term,
        graph_name: Option<&NamedOrBlankNode>,
    ) -> (r: Result<(), Error>)
        ensures
            final(self)@ == old(self)@ + quad_ops(
                QuadV {
                    subject: subject@,
                    predicate: predicate.iri@,
                    object: object@,
                    graph_name: match graph_name {
                        Option::None => Option::None,
                        Option::Some(g) => Option::Some(g@),
                    },
                },
            ),
            r == Ok::<(), Error>(()),
    {
        let ghost qv = QuadV {
            subject: subject@,
            predicate: predicate.iri@,
            object: object@,
            graph_name: match graph_name {
                Option::None => Option::None,
                Option::Some(g) => Option::Some(g@),
            },
        };
        let mut pairs: Vec<(u128, String)> = Vec::new();
        stage_quad_parts(subject, predicate, object, graph_name, &mut pairs);
        let n = pairs.len();
        let mut i: usize = 0;
        while i < n
            invariant
                i <= n,
                n == pairs@.len(),
                pairs_view(pairs@) == staged_quad(qv),
                self@ == old(self)@ + string_ops(staged_quad(qv)).take(i as int),
            decreases n - i,
        {
            let hash = pairs[i].0;
            let value = pairs[i].1.clone();
            let _ = self.insert_str(StrHash { hash }, value.as_str());
            proof {
                assert(string_ops(staged_quad(qv))[i as int] == BatchOpV::InsertString {
                    hash: pairs@[i as int].0,
                    value: pairs@[i as int].1@,
                });
                assert(self@ =~= old(self)@ + string_ops(staged_quad(qv)).take(i + 1));
            }
            i = i + 1;
        }
        proof {
            assert(string_ops(staged_quad(qv)).take(n as int) =~= string_ops(staged_quad(qv)));
        }
        let encoded = get_encoded_quad_parts(subject, predicate, object, graph_name);
        let _ = self.insert(&encoded);
        proof {
            assert(self@ =~= old(self)@ + quad_ops(qv));
        }
        Ok(())
    }

    /// Stages the well-known strings; run once when a store is opened.
    pub fn set_first_strings(&mut self) -> (r: Result<(), Error>)
        ensures
            final(self)@ == old(self)@ + seed_ops(),
            r == Ok::<(), Error>(()),
    {
        let _ = self.insert_str(StrHash::new(""), "");
        let _ = self.insert_str(
            StrHash::new("http://www.w3.org/2001/XMLSchema#string"),
            "http://www.w3.org/2001/XMLSchema#string",
        );
        let _ = self.insert_str(
            StrHash::new("http://www.w3.org/1999/02/22-rdf-syntax-ns#langString"),
            "http://www.w3.org/1999/02/22-rdf-syntax-ns#langString",
        );
        let _ = self.insert_str(
            StrHash::new("http://www.w3.org/2001/XMLSchema#boolean"),
            "http://www.w3.org/2001/XMLSchema#boolean",
        );
        let _ = self.insert_str(
            StrHash::new("http://www.w3.org/2001/XMLSchema#integer"),
            "http://www.w3.org/2001/XMLSchema#integer",
        );
        proof {
            assert(self@ =~= old(self)@ + seed_ops());
        }
        Ok(())
    }

    /// Applies the whole buffer to the store: all of it, or on a hash
    /// collision none of it.
    pub fn commit(self, store: &mut RocksDbStore) -> (r: Result<(), Error>)
        requires
            old(store).wf(),
        ensures
            final(store).wf(),
            r matches Ok(()) ==> final(store)@ == apply_ops(old(store)@, self@),
            r is Err ==> final(store)@ == old(store)@ && r == Err::<(), Error>(
                Error::HashCollision,
            ),
            (r is Ok) == ops_ok(old(store)@, self@),
    {
        store.apply_batch(&self.ops)
    }
}

/// A buffered transaction: nothing is visible until `commit`, and a commit
/// is all-or-nothing.
pub struct RocksDbTransaction {
    inner: RocksDbInnerTransaction,
}

impl View for RocksDbTransaction {
    type V = Seq<BatchOpV>;

    closed spec fn view(&self) -> Seq<BatchOpV> {
        self.inner@
    }
}

impl RocksDbTransaction {
    /// An empty transaction.
    pub fn new() -> (r: RocksDbTransaction)
        ensures
            r@ == Seq::<BatchOpV>::empty(),
    {
        RocksDbTransaction { inner: RocksDbInnerTransaction::new() }
    }

    /// Stages one hash-to-string pair.
    pub fn insert_str(&mut self, key: StrHash, value: &str) -> (r: Result<(), Error>)
        ensures
            final(self)@ == old(self)@.push(
                BatchOpV::InsertString { hash: key.hash, value: value@ },
            ),
            r == Ok::<(), Error>(()),
    {
        self.inner.insert_str(key, value)
    }

    /// Buffers an already-encoded quad for insertion; its dictionary
    /// entries are the caller's concern.
    pub fn insert_encoded(&mut self, quad: &EncodedQuad) -> (r: Result<(), Error>)
        ensures
            final(self)@ == old(self)@.push(BatchOpV::InsertQuad { quad: *quad }),
            r == Ok::<(), Error>(()),
    {
        self.inner.insert(quad)
    }

    /// Buffers an already-encoded quad for removal.
    pub fn remove_encoded(&mut self, quad: &EncodedQuad) -> (r: Result<(), Error>)
        ensures
            final(self)@ == old(self)@.push(BatchOpV::RemoveQuad { quad: *quad }),
            r == Ok::<(), Error>(()),
    {
        self.inner.remove(quad)
    }

    /// Encodes a quad given by its parts, stages its strings, and buffers
    /// its insertion.
    fn insert_parts(
        &mut self,
        subject: &NamedOrBlankNode,
        predicate: &NamedNodeBuf,
        object: &Term,
        graph_name: Option<&NamedOrBlankNode>,
    ) -> (r: Result<(), Error>)
        ensures
            final(self)@ == old(self)@ + quad_ops(
                QuadV {
                    subject: subject@,
                    predicate: predicate.iri@,
                    object: object@,
                    graph_name: match graph_name {
                        Option::None => Option::None,
                        Option::Some(g) => Option::Some(g@),
                    },
                },
            ),
            r == Ok::<(), Error>(()),
    {
        self.inner.insert_quad_parts(subject, predicate, object, graph_name)
    }

    /// Encodes a quad, stages its strings, and buffers its insertion.
    pub fn insert(&mut self, quad: &Quad) -> (r: Result<(), Error>)
        ensures
            final(self)@ == old(self)@ + quad_ops(quad@),
            r == Ok::<(), Error>(()),
    {
        self.insert_parts(
            &quad.subject,
            &quad.predicate,
            &quad.object,
            match &quad.graph_name {
                Option::None => Option::None,
                Option::Some(g) => Option::Some(g),
            },
        )
    }

    /// Encodes a quad and buffers its removal; removal stages no strings.
    pub fn remove(&mut self, quad: &Quad) -> (r: Result<(), Error>)
        ensures
            final(self)@ == old(self)@.push(
                BatchOpV::RemoveQuad { quad: encoded_quad_of(quad@) },
            ),
            r == Ok::<(), Error>(()),
    {
        let encoded = crate::codec::get_encoded_quad(quad);
        self.inner.remove(&encoded)
    }

    /// Buffers a parsed graph into the transaction, targeting the given
    /// graph, or the default graph when none is given.
    pub fn load_graph(&mut self, triples: &Vec<Triple>, to_graph_name: Option<&NamedOrBlankNode>) -> (r:
        Result<(), Error>)
        ensures
            final(self)@ == old(self)@ + graph_load_ops(
                triples@.map_values(|t: Triple| t@),
                match to_graph_name {
                    Option::None => Option::None,
                    Option::Some(g) => Option::Some(g@),
                },
            ),
            r == Ok::<(), Error>(()),
    {
        let ghost ts = triples@.map_values(|t: Triple| t@);
        let ghost gv: Option<NamedOrBlankNodeV> = match to_graph_name {
            Option::None => Option::None,
            Option::Some(g) => Option::Some(g@),
        };
        let n = triples.len();
        let mut i: usize = 0;
        while i < n
            invariant
                i <= n,
                n == triples@.len(),
                ts == triples@.map_values(|t: Triple| t@),
                gv == (match to_graph_name {
                    Option::None => Option::<NamedOrBlankNodeV>::None,
                    Option::Some(g) => Option::Some(g@),
                }),
                self@ == old(self)@ + graph_load_ops(ts.take(i as int), gv),
            decreases n - i,
        {
            let t = &triples[i];
            let _ = self.insert_parts(&t.subject, &t.predicate, &t.object, to_graph_name);
            proof {
                assert(ts.take(i + 1).drop_last() =~= ts.take(i as int));
                assert(ts.take(i + 1).last() == ts[i as int]);
                assert(self@ =~= old(self)@ + graph_load_ops(ts.take(i + 1), gv));
            }
            i = i + 1;
        }
        proof {
            assert(ts.take(n as int) =~= ts);
        }
        Ok(())
    }

    /// Buffers a parsed dataset into the transaction.
    pub fn load_dataset(&mut self, quads: &Vec<Quad>) -> (r: Result<(), Error>)
        ensures
            final(self)@ == old(self)@ + dataset_load_ops(quads@.map_values(|q: Quad| q@)),
            r == Ok::<(), Error>(()),
    {
        let ghost qs = quads@.map_values(|q: Quad| q@);
        let n = quads.len();
        let mut i: usize = 0;
        while i < n
            invariant
                i <= n,
                n == quads@.len(),
                qs == quads@.map_values(|q: Quad| q@),
                self@ == old(self)@ + dataset_load_ops(qs.take(i as int)),
            decreases n - i,
        {
            let q = &quads[i];
            let _ = self.insert(q);
            proof {
                assert(qs.take(i + 1).drop_last() =~= qs.take(i as int));
                assert(qs.take(i + 1).last() == qs[i as int]);
                assert(self@ =~= old(self)@ + dataset_load_ops(qs.take(i + 1)));
            }
            i = i + 1;
        }
        proof {
            assert(qs.take(n as int) =~= qs);
        }
        Ok(())
    }

    /// Commits the whole transaction: all of it, or on a hash collision
    /// none of it.
    pub fn commit(self, store: &mut RocksDbStore) -> (r: Result<(), Error>)
        requires
            old(store).wf(),
        ensures
            final(store).wf(),
            r matches Ok(()) ==> final(store)@ == apply_ops(old(store)@, self@),
            r is Err ==> final(store)@ == old(store)@ && r == Err::<(), Error>(
                Error::HashCollision,
            ),
            (r is Ok) == ops_ok(old(store)@, self@),
    {
        self.inner.commit(store)
    }
}

/// The bulk-load transaction: it flushes its buffer whenever it grows past
/// [`MAX_TRANSACTION_SIZE`] operations, so a failed load can leave a prefix
/// of the batch applied.
pub struct RocksDbAutoTransaction {
    inner: RocksDbInnerTransaction,
}

impl View for RocksDbAutoTransaction {
    type V = Seq<BatchOpV>;

    closed spec fn view(&self) -> Seq<BatchOpV> {
        self.inner@
    }
}

impl RocksDbAutoTransaction {
    /// An empty auto-commit transaction.
    pub fn new() -> (r: RocksDbAutoTransaction)
        ensures
            r@ == Seq::<BatchOpV>::empty(),
    {
        RocksDbAutoTransaction { inner: RocksDbInnerTransaction::new() }
    }

    /// Stages the well-known strings; run once when a store is opened.
    pub fn set_first_strings(&mut self) -> (r: Result<(), Error>)
        ensures
            final(self)@ == old(self)@ + seed_ops(),
            r == Ok::<(), Error>(()),
    {
        self.inner.set_first_strings()
    }

    /// Buffers the insertion of a quad given by its parts, then flushes if
    /// the buffer has grown too large.
    pub fn insert_parts(
        &mut self,
        subject: &NamedOrBlankNode,
        predicate: &NamedNodeBuf,
        object: &Term,
        graph_name: Option<&NamedOrBlankNode>,
        store: &mut RocksDbStore,
    ) -> (r: Result<(), Error>)
        requires
            old(store).wf(),
        ensures
            final(store).wf(),
            ({
                let ops = old(self)@ + quad_ops(
                    QuadV {
                        subject: subject@,
                        predicate: predicate.iri@,
                        object: object@,
                        graph_name: match graph_name {
                            Option::None => Option::None,
                            Option::Some(g) => Option::Some(g@),
                        },
                    },
                );
                &&& (r matches Ok(()) ==> ((final(self)@ == ops && final(store)@ == old(store)@)
                    || (final(self)@ == Seq::<BatchOpV>::empty() && final(store)@ == apply_ops(
                    old(store)@,
                    ops,
                ) && ops_ok(old(store)@, ops))))
                &&& (r is Err ==> final(self)@ == Seq::<BatchOpV>::empty() && final(store)@ == old(
                    store,
                )@ && !ops_ok(old(store)@, ops) && r == Err::<(), Error>(Error::HashCollision))
            }),
    {
        let _ = self.inner.insert_quad_parts(subject, predicate, object, graph_name);
        self.commit_if_big(store)
    }

    /// Flushes the buffer as one batch if it has grown past
    /// [`MAX_TRANSACTION_SIZE`]. A failed flush drops the buffered
    /// operations: bulk loading does not promise whole-load atomicity.
    pub fn commit_if_big(&mut self, store: &mut RocksDbStore) -> (r: Result<(), Error>)
        requires
            old(store).wf(),
        ensures
            final(store).wf(),
            old(self)@.len() <= MAX_TRANSACTION_SIZE ==> r == Ok::<(), Error>(()) && final(self)@
                == old(self)@ && final(store)@ == old(store)@,
            old(self)@.len() > MAX_TRANSACTION_SIZE ==> final(self)@ == Seq::<BatchOpV>::empty()
                && (r matches Ok(()) ==> final(store)@ == apply_ops(old(store)@, old(self)@)) && (
            r is Err ==> final(store)@ == old(store)@ && r == Err::<(), Error>(
                Error::HashCollision,
            )) && ((r is Ok) == ops_ok(old(store)@, old(self)@)),
    {
        if self.inner.ops.len() > MAX_TRANSACTION_SIZE {
            let r = store.apply_batch(&self.inner.ops);
            self.inner.ops.clear();
            proof {
                assert(self@ =~= Seq::<BatchOpV>::empty());
            }
            r
        } else {
            Ok(())
        }
    }

    /// Flushes whatever remains in the buffer as one final batch.
    pub fn commit(self, store: &mut RocksDbStore) -> (r: Result<(), Error>)
        requires
            old(store).wf(),
        ensures
            final(store).wf(),
            r matches Ok(()) ==> final(store)@ == apply_ops(old(store)@, self@),
            r is Err ==> final(store)@ == old(store)@ && r == Err::<(), Error>(
                Error::HashCollision,
            ),
            (r is Ok) == ops_ok(old(store)@, self@),
    {
        self.inner.commit(store)
    }
}

} // verus!
