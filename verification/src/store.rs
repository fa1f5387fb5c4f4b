//! The quad store: six index permutations over fixed-width encoded-quad
//! keys, the string dictionary, batched atomic writes, and the pattern
//! dispatcher that answers any bound-slot combination by one prefix scan.

use vstd::prelude::*;

use crate::{Error, StoreView};
use crate::codec::{
    decode_quad, decode_quad_spec, encoded_named_or_blank_of, encoded_quad_of, encoded_term_of,
    get_encoded_quad, staged_quad,
};
use crate::dict::Dictionary;
use crate::encoded::{
    EncodedQuad, EncodedTerm, gosp_bytes, gpos_bytes, gspo_bytes, lemma_quad_key_blocks,
    lemma_quad_key_injective, lemma_quad_key_prefix_1, lemma_quad_key_prefix_2,
    lemma_quad_key_prefix_3, ospg_bytes, posg_bytes, read_gosp_quad, read_gpos_quad,
    read_gspo_quad, read_ospg_quad, read_posg_quad, read_spog_quad, spog_bytes, term_bytes,
    write_gosp_quad, write_gpos_quad, write_gspo_quad, write_ospg_quad, write_posg_quad,
    write_spog_quad, write_term,
};
use crate::hash::{StrHash, str_hash};
use crate::wire::{lemma_lex_lt_irreflexive, lemma_lex_lt_total, lemma_lex_lt_transitive, lex_lt};
use crate::model::{
    NamedNodeBuf, NamedOrBlankNode, Quad, QuadV, Term, Triple, graph_view, quads_view,
    triples_view,
};
use crate::transaction::{
    BatchOp, BatchOpV, RocksDbAutoTransaction, RocksDbTransaction, apply_op, apply_ops,
    dataset_load_ops, graph_load_ops, lemma_apply_ops_concat, lemma_dataset_load_ops_prefix,
    lemma_graph_load_ops_prefix, lemma_ops_ok_concat, lemma_quad_ops_apply,
    lemma_string_ops_apply, op_ok, ops_ok, ops_view, pairs_ok, quad_of_triple, quad_ops, seed_ops,
    seed_pairs, strings_with_pairs,
};

verus! {

/// Whether a byte string stands in an index.
pub open spec fn index_has(idx: Seq<Vec<u8>>, key: Seq<u8>) -> bool {
    exists|i: int| 0 <= i < idx.len() && (#[trigger] idx[i])@ == key
}

/// No two entries of the index hold the same bytes.
spec fn index_unique(idx: Seq<Vec<u8>>) -> bool {
    forall|i: int, j: int| 0 <= i < j < idx.len() ==> (#[trigger] idx[i])@ != (#[trigger] idx[j])@
}

/// The index is strictly ascending in byte-lexicographic key order, as the
/// sorted columns of the persistent layout are.
spec fn index_sorted(idx: Seq<Vec<u8>>) -> bool {
    forall|i: int, j: int|
        0 <= i < j < idx.len() ==> lex_lt((#[trigger] idx[i])@, (#[trigger] idx[j])@)
}

/// The dictionary seed: the hash-to-string map a fresh store starts with.
pub open spec fn seed_strings() -> Map<u128, Seq<char>> {
    strings_with_pairs(Map::empty(), seed_pairs())
}

/// Whether the seed pairs themselves are hash-collision free; the open
/// operation fails exactly when they are not.
pub open spec fn seed_ok() -> bool {
    pairs_ok(Map::empty(), seed_pairs())
}

/// Whether a byte string is the SPOG key of some quad.
pub open spec fn is_spog_key(k: Seq<u8>) -> bool {
    exists|q: EncodedQuad| k == spog_bytes(q)
}

/// Whether a byte string is the POSG key of some quad.
pub open spec fn is_posg_key(k: Seq<u8>) -> bool {
    exists|q: EncodedQuad| k == posg_bytes(q)
}

/// Whether a byte string is the OSPG key of some quad.
pub open spec fn is_ospg_key(k: Seq<u8>) -> bool {
    exists|q: EncodedQuad| k == ospg_bytes(q)
}

/// Whether a byte string is the GSPO key of some quad.
pub open spec fn is_gspo_key(k: Seq<u8>) -> bool {
    exists|q: EncodedQuad| k == gspo_bytes(q)
}

/// Whether a byte string is the GPOS key of some quad.
pub open spec fn is_gpos_key(k: Seq<u8>) -> bool {
    exists|q: EncodedQuad| k == gpos_bytes(q)
}

/// Whether a byte string is the GOSP key of some quad.
pub open spec fn is_gosp_key(k: Seq<u8>) -> bool {
    exists|q: EncodedQuad| k == gosp_bytes(q)
}

/// Whether every entry of an index satisfies a key predicate.
spec fn keys_wf(idx: Seq<Vec<u8>>, good: spec_fn(Seq<u8>) -> bool) -> bool {
    forall|i: int| 0 <= i < idx.len() ==> good((#[trigger] idx[i])@)
}

/// Whether the six indexes hold exactly the same quads.
spec fn indexes_coherent(
    spog: Seq<Vec<u8>>,
    posg: Seq<Vec<u8>>,
    ospg: Seq<Vec<u8>>,
    gspo: Seq<Vec<u8>>,
    gpos: Seq<Vec<u8>>,
    gosp: Seq<Vec<u8>>,
) -> bool {
    forall|q: EncodedQuad|
        {
            &&& index_has(spog, #[trigger] spog_bytes(q)) == index_has(posg, posg_bytes(q))
            &&& index_has(spog, spog_bytes(q)) == index_has(ospg, ospg_bytes(q))
            &&& index_has(spog, spog_bytes(q)) == index_has(gspo, gspo_bytes(q))
            &&& index_has(spog, spog_bytes(q)) == index_has(gpos, gpos_bytes(q))
            &&& index_has(spog, spog_bytes(q)) == index_has(gosp, gosp_bytes(q))
        }
}

/// Whether a quad agrees with every bound slot of a pattern.
pub open spec fn pattern_matches(
    subject: Option<EncodedTerm>,
    predicate: Option<EncodedTerm>,
    object: Option<EncodedTerm>,
    graph_name: Option<EncodedTerm>,
    q: EncodedQuad,
) -> bool {
    &&& (subject matches Some(t) ==> q.subject == t)
    &&& (predicate matches Some(t) ==> q.predicate == t)
    &&& (object matches Some(t) ==> q.object == t)
    &&& (graph_name matches Some(t) ==> q.graph_name == t)
}

/// The encoded pattern slot of an optional subject.
pub open spec fn subject_pattern(subject: Option<&NamedOrBlankNode>) -> Option<EncodedTerm> {
    match subject {
        Option::None => Option::None,
        Option::Some(t) => Option::Some(encoded_named_or_blank_of(t@)),
    }
}

/// The encoded pattern slot of an optional predicate.
pub open spec fn predicate_pattern(predicate: Option<&NamedNodeBuf>) -> Option<EncodedTerm> {
    match predicate {
        Option::None => Option::None,
        Option::Some(t) => Option::Some(EncodedTerm::NamedNode { iri_id: str_hash(t.iri@) }),
    }
}

/// The encoded pattern slot of an optional object.
pub open spec fn object_pattern(object: Option<&Term>) -> Option<EncodedTerm> {
    match object {
        Option::None => Option::None,
        Option::Some(t) => Option::Some(encoded_term_of(t@)),
    }
}

/// The encoded pattern slot of the three-state graph selector: absent means
/// any graph, `Some(None)` the default graph, `Some(Some(g))` one named
/// graph.
pub open spec fn graph_pattern(graph_name: Option<Option<&NamedOrBlankNode>>) -> Option<
    EncodedTerm,
> {
    match graph_name {
        Option::None => Option::None,
        Option::Some(Option::None) => Option::Some(EncodedTerm::DefaultGraph),
        Option::Some(Option::Some(t)) => Option::Some(encoded_named_or_blank_of(t@)),
    }
}

/// Whether one returned quad decodes some stored quad matching the pattern.
pub open spec fn decodes_match(
    store: StoreView,
    s: Option<EncodedTerm>,
    p: Option<EncodedTerm>,
    o: Option<EncodedTerm>,
    g: Option<EncodedTerm>,
    q: Quad,
) -> bool {
    exists|eq: EncodedQuad|
        store.quads.contains(eq) && #[trigger] pattern_matches(s, p, o, g, eq)
            && decode_quad_spec(eq, store.strings) == Some(q@)
}

/// Every returned quad decodes a stored quad that matches the pattern.
pub open spec fn pattern_result_sound(
    store: StoreView,
    s: Option<EncodedTerm>,
    p: Option<EncodedTerm>,
    o: Option<EncodedTerm>,
    g: Option<EncodedTerm>,
    v: Seq<Quad>,
) -> bool {
    forall|i: int| 0 <= i < v.len() ==> #[trigger] decodes_match(store, s, p, o, g, v[i])
}

/// Whether a stored quad is decoded somewhere in the result.
pub open spec fn decoded_in(store: StoreView, eq: EncodedQuad, v: Seq<Quad>) -> bool {
    exists|i: int| 0 <= i < v.len() && decode_quad_spec(eq, store.strings) == Some((#[trigger] v[i])@)
}

/// Every stored quad that matches the pattern is decoded in the result.
pub open spec fn pattern_result_complete(
    store: StoreView,
    s: Option<EncodedTerm>,
    p: Option<EncodedTerm>,
    o: Option<EncodedTerm>,
    g: Option<EncodedTerm>,
    v: Seq<Quad>,
) -> bool {
    forall|eq: EncodedQuad|
        store.quads.contains(eq) && #[trigger] pattern_matches(s, p, o, g, eq) ==> decoded_in(
            store,
            eq,
            v,
        )
}

/// The result vector is the pointwise decoding of an enumeration, without
/// repetition, of exactly the stored quads matching the pattern. This is
/// what pins the result's multiplicity: its length is the number of
/// matching quads.
pub open spec fn pattern_result_exact(
    store: StoreView,
    s: Option<EncodedTerm>,
    p: Option<EncodedTerm>,
    o: Option<EncodedTerm>,
    g: Option<EncodedTerm>,
    eqs: Seq<EncodedQuad>,
    v: Seq<Quad>,
) -> bool {
    &&& forall|q: EncodedQuad|
        #[trigger] eqs.contains(q) == (store.quads.contains(q) && pattern_matches(s, p, o, g, q))
    &&& forall|a: int, b: int| 0 <= a < b < eqs.len() ==> eqs[a] != eqs[b]
    &&& forall|a: int, b: int|
        #![trigger eqs[a], eqs[b]]
        0 <= a < b < eqs.len() ==> lex_lt(
            serving_key(s, p, o, g, eqs[a]),
            serving_key(s, p, o, g, eqs[b]),
        )
    &&& v.len() == eqs.len()
    &&& forall|i: int|
        0 <= i < v.len() ==> decode_quad_spec(eqs[i], store.strings) == Some((#[trigger] v[i])@)
}

/// There is an enumeration of the matching stored quads that the result
/// decodes pointwise.
pub open spec fn pattern_result_counted(
    store: StoreView,
    s: Option<EncodedTerm>,
    p: Option<EncodedTerm>,
    o: Option<EncodedTerm>,
    g: Option<EncodedTerm>,
    v: Seq<Quad>,
) -> bool {
    exists|eqs: Seq<EncodedQuad>| #[trigger] pattern_result_exact(store, s, p, o, g, eqs, v)
}

/// Some stored quad matching the pattern references a missing dictionary
/// entry and cannot be decoded.
pub open spec fn pattern_blocked(
    store: StoreView,
    s: Option<EncodedTerm>,
    p: Option<EncodedTerm>,
    o: Option<EncodedTerm>,
    g: Option<EncodedTerm>,
) -> bool {
    exists|eq: EncodedQuad|
        store.quads.contains(eq) && #[trigger] pattern_matches(s, p, o, g, eq)
            && decode_quad_spec(eq, store.strings) is None
}

/// The key under which the index serving a bound-slot combination stores a
/// quad: the dispatch table, with the index whose permutation puts the
/// bound slots first.
pub open spec fn serving_key(
    subject: Option<EncodedTerm>,
    predicate: Option<EncodedTerm>,
    object: Option<EncodedTerm>,
    graph_name: Option<EncodedTerm>,
    q: EncodedQuad,
) -> Seq<u8> {
    match (subject, predicate, object, graph_name) {
        (Option::Some(_), Option::Some(_), Option::Some(_), Option::Some(_)) => spog_bytes(q),
        (Option::Some(_), Option::Some(_), Option::Some(_), Option::None) => spog_bytes(q),
        (Option::Some(_), Option::Some(_), Option::None, Option::Some(_)) => gspo_bytes(q),
        (Option::Some(_), Option::Some(_), Option::None, Option::None) => spog_bytes(q),
        (Option::Some(_), Option::None, Option::Some(_), Option::Some(_)) => gosp_bytes(q),
        (Option::Some(_), Option::None, Option::Some(_), Option::None) => ospg_bytes(q),
        (Option::Some(_), Option::None, Option::None, Option::Some(_)) => gspo_bytes(q),
        (Option::Some(_), Option::None, Option::None, Option::None) => spog_bytes(q),
        (Option::None, Option::Some(_), Option::Some(_), Option::Some(_)) => gpos_bytes(q),
        (Option::None, Option::Some(_), Option::Some(_), Option::None) => posg_bytes(q),
        (Option::None, Option::Some(_), Option::None, Option::Some(_)) => gpos_bytes(q),
        (Option::None, Option::Some(_), Option::None, Option::None) => posg_bytes(q),
        (Option::None, Option::None, Option::Some(_), Option::Some(_)) => gosp_bytes(q),
        (Option::None, Option::None, Option::Some(_), Option::None) => ospg_bytes(q),
        (Option::None, Option::None, Option::None, Option::Some(_)) => gspo_bytes(q),
        (Option::None, Option::None, Option::None, Option::None) => spog_bytes(q),
    }
}

/// The quad store. It keeps the seven column families of the persistent
/// layout as in-memory columns: one byte-sorted set of fixed-width keys
/// per index permutation, and the hash-to-string dictionary. Scans walk a
/// column in ascending key order, as the sorted column families of the
/// persistent layout do.
pub struct RocksDbStore {
    spog: Vec<Vec<u8>>,
    posg: Vec<Vec<u8>>,
    ospg: Vec<Vec<u8>>,
    gspo: Vec<Vec<u8>>,
    gpos: Vec<Vec<u8>>,
    gosp: Vec<Vec<u8>>,
    id2str: Dictionary,
}

impl View for RocksDbStore {
    type V = StoreView;

    closed spec fn view(&self) -> StoreView {
        StoreView {
            quads: Set::new(|q: EncodedQuad| index_has(self.spog@, spog_bytes(q))),
            strings: self.id2str@,
        }
    }
}

impl RocksDbStore {
    /// The store invariant: every key in every index is the permutation
    /// image of some quad, no index repeats a key, the six indexes hold
    /// exactly the same quads, and the dictionary is well formed.
    pub closed spec fn wf(&self) -> bool {
        &&& keys_wf(self.spog@, |k: Seq<u8>| is_spog_key(k))
        &&& keys_wf(self.posg@, |k: Seq<u8>| is_posg_key(k))
        &&& keys_wf(self.ospg@, |k: Seq<u8>| is_ospg_key(k))
        &&& keys_wf(self.gspo@, |k: Seq<u8>| is_gspo_key(k))
        &&& keys_wf(self.gpos@, |k: Seq<u8>| is_gpos_key(k))
        &&& keys_wf(self.gosp@, |k: Seq<u8>| is_gosp_key(k))
        &&& index_unique(self.spog@)
        &&& index_unique(self.posg@)
        &&& index_unique(self.ospg@)
        &&& index_unique(self.gspo@)
        &&& index_unique(self.gpos@)
        &&& index_unique(self.gosp@)
        &&& index_sorted(self.spog@)
        &&& index_sorted(self.posg@)
        &&& index_sorted(self.ospg@)
        &&& index_sorted(self.gspo@)
        &&& index_sorted(self.gpos@)
        &&& index_sorted(self.gosp@)
        &&& indexes_coherent(self.spog@, self.posg@, self.ospg@, self.gspo@, self.gpos@, self.gosp@)
        &&& self.id2str.wf()
    }

    /// Whether the SPOG index holds the key of a quad.
    pub closed spec fn spog_has(&self, q: EncodedQuad) -> bool {
        index_has(self.spog@, spog_bytes(q))
    }

    /// Whether the POSG index holds the key of a quad.
    pub closed spec fn posg_has(&self, q: EncodedQuad) -> bool {
        index_has(self.posg@, posg_bytes(q))
    }

    /// Whether the OSPG index holds the key of a quad.
    pub closed spec fn ospg_has(&self, q: EncodedQuad) -> bool {
        index_has(self.ospg@, ospg_bytes(q))
    }

    /// Whether the GSPO index holds the key of a quad.
    pub closed spec fn gspo_has(&self, q: EncodedQuad) -> bool {
        index_has(self.gspo@, gspo_bytes(q))
    }

    /// Whether the GPOS index holds the key of a quad.
    pub closed spec fn gpos_has(&self, q: EncodedQuad) -> bool {
        index_has(self.gpos@, gpos_bytes(q))
    }

    /// Whether the GOSP index holds the key of a quad.
    pub closed spec fn gosp_has(&self, q: EncodedQuad) -> bool {
        index_has(self.gosp@, gosp_bytes(q))
    }
}

/// Index coherence: a quad is a member of the store exactly when its key
/// stands in every one of the six index permutations — and the six
/// permutations agree pairwise, so after a removal every index is clear of
/// the quad, not merely their conjunction.
pub proof fn lemma_index_coherence(s: &RocksDbStore, q: EncodedQuad)
    requires
        s.wf(),
    ensures
        s@.quads.contains(q) <==> (s.spog_has(q) && s.posg_has(q) && s.ospg_has(q) && s.gspo_has(
            q,
        ) && s.gpos_has(q) && s.gosp_has(q)),
        s.spog_has(q) == s.posg_has(q),
        s.spog_has(q) == s.ospg_has(q),
        s.spog_has(q) == s.gspo_has(q),
        s.spog_has(q) == s.gpos_has(q),
        s.spog_has(q) == s.gosp_has(q),
{
}

/// Compares two byte strings.
fn bytes_eq(a: &Vec<u8>, b: &Vec<u8>) -> (r: bool)
    ensures
        r == (a@ == b@),
{
    let n = a.len();
    if n != b.len() {
        return false;
    }
    let mut i: usize = 0;
    while i < n
        invariant
            i <= n,
            n == a@.len(),
            n == b@.len(),
            forall|j: int| 0 <= j < i ==> a@[j] == b@[j],
        decreases n - i,
    {
        if a[i] != b[i] {
            return false;
        }
        i = i + 1;
    }
    proof {
        assert(a@ =~= b@);
    }
    true
}

/// Compares two byte strings in strict lexicographic order.
fn bytes_lt(a: &Vec<u8>, b: &Vec<u8>) -> (r: bool)
    ensures
        r == lex_lt(a@, b@),
{
    let an = a.len();
    let bn = b.len();
    let mut i: usize = 0;
    proof {
        assert(a@.skip(0) =~= a@);
        assert(b@.skip(0) =~= b@);
    }
    loop
        invariant
            i <= an,
            i <= bn,
            an == a@.len(),
            bn == b@.len(),
            forall|j: int| 0 <= j < i ==> a@[j] == b@[j],
            lex_lt(a@, b@) == lex_lt(a@.skip(i as int), b@.skip(i as int)),
        decreases an - i,
    {
        if i >= bn {
            proof {
                assert(b@.skip(i as int).len() == 0);
            }
            return false;
        }
        if i >= an {
            proof {
                assert(a@.skip(i as int).len() == 0);
                assert(b@.skip(i as int).len() > 0);
            }
            return true;
        }
        let x = a[i];
        let y = b[i];
        proof {
            assert(a@.skip(i as int)[0] == a@[i as int]);
            assert(b@.skip(i as int)[0] == b@[i as int]);
        }
        if x != y {
            return x < y;
        }
        proof {
            assert(a@.skip(i as int).skip(1) =~= a@.skip(i + 1));
            assert(b@.skip(i as int).skip(1) =~= b@.skip(i + 1));
        }
        i = i + 1;
    }
}

/// Copies a byte string.
fn copy_bytes(a: &Vec<u8>) -> (r: Vec<u8>)
    ensures
        r@ == a@,
{
    let n = a.len();
    let mut r: Vec<u8> = Vec::new();
    let mut i: usize = 0;
    while i < n
        invariant
            i <= n,
            n == a@.len(),
            r@ == a@.take(i as int),
        decreases n - i,
    {
        r.push(a[i]);
        proof {
            assert(r@ =~= a@.take(i + 1));
        }
        i = i + 1;
    }
    proof {
        assert(a@.take(n as int) =~= a@);
    }
    r
}

/// Whether `prefix` leads `key`.
fn is_prefix_exec(prefix: &Vec<u8>, key: &Vec<u8>) -> (r: bool)
    ensures
        r == prefix@.is_prefix_of(key@),
{
    let n = prefix.len();
    if n > key.len() {
        return false;
    }
    let mut i: usize = 0;
    while i < n
        invariant
            i <= n,
            n == prefix@.len(),
            n <= key@.len(),
            forall|j: int| 0 <= j < i ==> prefix@[j] == key@[j],
        decreases n - i,
    {
        if prefix[i] != key[i] {
            proof {
                assert(key@.subrange(0, n as int)[i as int] == key@[i as int]);
            }
            return false;
        }
        i = i + 1;
    }
    proof {
        assert(prefix@ =~= key@.subrange(0, n as int));
    }
    true
}

/// Whether the index holds the key.
fn index_contains(idx: &Vec<Vec<u8>>, key: &Vec<u8>) -> (r: bool)
    ensures
        r == index_has(idx@, key@),
{
    let n = idx.len();
    let mut i: usize = 0;
    while i < n
        invariant
            i <= n,
            n == idx@.len(),
            forall|j: int| 0 <= j < i ==> (#[trigger] idx@[j])@ != key@,
        decreases n - i,
    {
        if bytes_eq(&idx[i], key) {
            return true;
        }
        i = i + 1;
    }
    false
}

/// Adds a key to an index at its ordered position; a key already present
/// leaves the index unchanged.
fn index_insert(idx: &mut Vec<Vec<u8>>, key: Vec<u8>)
    requires
        index_unique(old(idx)@),
        index_sorted(old(idx)@),
    ensures
        forall|k: Seq<u8>| index_has(final(idx)@, k) == (index_has(old(idx)@, k) || k == key@),
        forall|i: int|
            0 <= i < final(idx)@.len() ==> index_has(old(idx)@, (#[trigger] final(idx)@[i])@) || (
            final(idx)@[i])@ == key@,
        index_unique(final(idx)@),
        index_sorted(final(idx)@),
{
    let n = idx.len();
    let mut result: Vec<Vec<u8>> = Vec::new();
    let mut i: usize = 0;
    while i < n && bytes_lt(&idx[i], &key)
        invariant
            i <= n,
            n == idx@.len(),
            idx@ == old(idx)@,
            index_unique(idx@),
            index_sorted(idx@),
            result@.len() == i,
            forall|j: int| 0 <= j < i ==> (#[trigger] result@[j])@ == (idx@[j])@,
            forall|j: int| 0 <= j < i ==> lex_lt((#[trigger] idx@[j])@, key@),
        decreases n - i,
    {
        let item = copy_bytes(&idx[i]);
        result.push(item);
        i = i + 1;
    }
    if i < n && bytes_eq(&idx[i], &key) {
        proof {
            assert((idx@[i as int])@ == key@);
            assert(index_has(idx@, key@));
        }
        return ;
    }
    let ghost pos = i as int;
    proof {
        assert forall|j: int| pos <= j < idx@.len() implies lex_lt(
            key@,
            (#[trigger] idx@[j])@,
        ) by {
            assert(!lex_lt((idx@[pos])@, key@));
            assert((idx@[pos])@ != key@);
            lemma_lex_lt_total(key@, (idx@[pos])@);
            if j > pos {
                lemma_lex_lt_transitive(key@, (idx@[pos])@, (idx@[j])@);
            }
        }
    }
    result.push(key);
    while i < n
        invariant
            0 <= pos <= i <= n,
            n == idx@.len(),
            idx@ == old(idx)@,
            result@.len() == i + 1,
            forall|j: int| 0 <= j < pos ==> (#[trigger] result@[j])@ == (idx@[j])@,
            (result@[pos])@ == key@,
            forall|j: int| pos < j <= i ==> (#[trigger] result@[j])@ == (idx@[j - 1])@,
        decreases n - i,
    {
        let ghost stage = result@;
        let item = copy_bytes(&idx[i]);
        result.push(item);
        proof {
            assert(result@ == stage.push(item));
            assert(stage.push(item).len() == stage.len() + 1);
            assert forall|j: int| 0 <= j < stage.len() implies result@[j] == #[trigger] stage[j] by {
                assert(stage.push(item)[j] == stage[j]);
            }
            assert(stage.push(item)[stage.len() as int] == item);
            assert((result@[i + 1])@ == (idx@[i as int])@);
            assert(stage.push(item)[pos] == stage[pos]);
            assert((result@[pos])@ == key@);
        }
        i = i + 1;
    }
    proof {
        let before = idx@;
        let fin = result@;
        assert forall|k: Seq<u8>| index_has(fin, k) == (index_has(before, k) || k == key@) by {
            if index_has(fin, k) {
                let w = choose|m: int| 0 <= m < fin.len() && (#[trigger] fin[m])@ == k;
                if w < pos {
                    assert((before[w])@ == k);
                } else if w > pos {
                    assert((before[w - 1])@ == k);
                }
            }
            if index_has(before, k) {
                let w = choose|m: int| 0 <= m < before.len() && (#[trigger] before[m])@ == k;
                if w < pos {
                    assert((fin[w])@ == k);
                } else {
                    assert((fin[w + 1])@ == k);
                }
            }
            if k == key@ {
                assert((fin[pos])@ == k);
            }
        }
        assert forall|m: int|
            0 <= m < fin.len() implies index_has(before, (#[trigger] fin[m])@) || (fin[m])@
            == key@ by {
            if m < pos {
                assert((before[m])@ == (fin[m])@);
            } else if m > pos {
                assert((before[m - 1])@ == (fin[m])@);
            }
        }
        assert forall|m1: int, m2: int|
            0 <= m1 < m2 < fin.len() implies lex_lt((#[trigger] fin[m1])@, (#[trigger] fin[m2])@) by {
            if m2 < pos {
                assert(lex_lt((before[m1])@, (before[m2])@));
            } else if m1 < pos && m2 == pos {
                assert(lex_lt((before[m1])@, key@));
            } else if m1 < pos && m2 > pos {
                assert(lex_lt((before[m1])@, (before[m2 - 1])@));
            } else if m1 == pos {
                assert(lex_lt(key@, (before[m2 - 1])@));
            } else {
                assert(lex_lt((before[m1 - 1])@, (before[m2 - 1])@));
            }
        }
        assert forall|m1: int, m2: int|
            0 <= m1 < m2 < fin.len() implies (#[trigger] fin[m1])@ != (#[trigger] fin[m2])@ by {
            if (fin[m1])@ == (fin[m2])@ {
                lemma_lex_lt_irreflexive((fin[m1])@);
            }
        }
    }
    *idx = result;
}

/// Removes a key from an index.
fn index_remove(idx: &mut Vec<Vec<u8>>, key: &Vec<u8>)
    requires
        index_unique(old(idx)@),
        index_sorted(old(idx)@),
    ensures
        forall|k: Seq<u8>| index_has(final(idx)@, k) == (index_has(old(idx)@, k) && k != key@),
        forall|i: int|
            0 <= i < final(idx)@.len() ==> index_has(old(idx)@, (#[trigger] final(idx)@[i])@),
        index_unique(final(idx)@),
        index_sorted(final(idx)@),
{
    let n = idx.len();
    let mut result: Vec<Vec<u8>> = Vec::new();
    let mut i: usize = 0;
    while i < n
        invariant
            i <= n,
            n == idx@.len(),
            idx@ == old(idx)@,
            index_unique(idx@),
            index_sorted(idx@),
            forall|k: Seq<u8>|
                index_has(result@, k) == ((exists|j: int|
                    0 <= j < i && (#[trigger] idx@[j])@ == k) && k != key@),
            forall|m: int|
                0 <= m < result@.len() ==> index_has(idx@, (#[trigger] result@[m])@),
            index_unique(result@),
            index_sorted(result@),
        decreases n - i,
    {
        if !bytes_eq(&idx[i], key) {
            let ghost before = result@;
            let item = copy_bytes(&idx[i]);
            result.push(item);
            proof {
                assert forall|k: Seq<u8>|
                    index_has(result@, k) == ((exists|j: int|
                        0 <= j < i + 1 && (#[trigger] idx@[j])@ == k) && k != key@) by {
                    if index_has(result@, k) {
                        let w = choose|m: int|
                            0 <= m < result@.len() && (#[trigger] result@[m])@ == k;
                        if w < before.len() {
                            assert(before[w]@ == k);
                            assert(index_has(before, k));
                        } else {
                            assert(idx@[i as int]@ == k);
                        }
                    }
                    if (exists|j: int| 0 <= j < i + 1 && (#[trigger] idx@[j])@ == k) && k
                        != key@ {
                        let j = choose|j: int|
                            0 <= j < i + 1 && (#[trigger] idx@[j])@ == k;
                        if j < i {
                            assert(index_has(before, k));
                            let w = choose|m: int|
                                0 <= m < before.len() && (#[trigger] before[m])@ == k;
                            assert(result@[w]@ == k);
                        } else {
                            assert(result@[result@.len() - 1]@ == k);
                        }
                    }
                }
                assert forall|m1: int, m2: int|
                    0 <= m1 < m2 < result@.len() implies (#[trigger] result@[m1])@ != (
                #[trigger] result@[m2])@ by {
                    if m2 == result@.len() - 1 {
                        if result@[m1]@ == idx@[i as int]@ {
                            assert(index_has(before, idx@[i as int]@));
                            let j = choose|j: int|
                                0 <= j < i && (#[trigger] idx@[j])@ == idx@[i as int]@;
                        }
                    }
                }
                assert forall|m1: int, m2: int|
                    0 <= m1 < m2 < result@.len() implies lex_lt(
                    (#[trigger] result@[m1])@,
                    (#[trigger] result@[m2])@,
                ) by {
                    if m2 == result@.len() - 1 {
                        assert(index_has(before, (before[m1])@));
                        let j = choose|j: int|
                            0 <= j < i && (#[trigger] idx@[j])@ == (before[m1])@;
                        assert(lex_lt((idx@[j])@, (idx@[i as int])@));
                    }
                }
            }
        } else {
            proof {
                assert forall|k: Seq<u8>|
                    index_has(result@, k) == ((exists|j: int|
                        0 <= j < i + 1 && (#[trigger] idx@[j])@ == k) && k != key@) by {
                    if (exists|j: int| 0 <= j < i + 1 && (#[trigger] idx@[j])@ == k) && k
                        != key@ {
                        let j = choose|j: int|
                            0 <= j < i + 1 && (#[trigger] idx@[j])@ == k;
                        assert(j < i);
                    }
                }
            }
        }
        i = i + 1;
    }
    *idx = result;
}


impl RocksDbStore {
    /// Writes the six permutation keys of a quad.
    fn store_insert_quad(&mut self, quad: &EncodedQuad)
        requires
            old(self).wf(),
        ensures
            final(self).wf(),
            final(self)@ == (StoreView {
                quads: old(self)@.quads.insert(*quad),
                strings: old(self)@.strings,
            }),
    {
        let q = *quad;
        let mut spog_key: Vec<u8> = Vec::new();
        write_spog_quad(&mut spog_key, quad);
        let mut posg_key: Vec<u8> = Vec::new();
        write_posg_quad(&mut posg_key, quad);
        let mut ospg_key: Vec<u8> = Vec::new();
        write_ospg_quad(&mut ospg_key, quad);
        let mut gspo_key: Vec<u8> = Vec::new();
        write_gspo_quad(&mut gspo_key, quad);
        let mut gpos_key: Vec<u8> = Vec::new();
        write_gpos_quad(&mut gpos_key, quad);
        let mut gosp_key: Vec<u8> = Vec::new();
        write_gosp_quad(&mut gosp_key, quad);
        index_insert(&mut self.spog, spog_key);
        index_insert(&mut self.posg, posg_key);
        index_insert(&mut self.ospg, ospg_key);
        index_insert(&mut self.gspo, gspo_key);
        index_insert(&mut self.gpos, gpos_key);
        index_insert(&mut self.gosp, gosp_key);
        proof {
            assert forall|qq: EncodedQuad| #[trigger]
                spog_bytes(qq) == spog_bytes(q) || posg_bytes(qq) == posg_bytes(q) || ospg_bytes(
                    qq,
                ) == ospg_bytes(q) || gspo_bytes(qq) == gspo_bytes(q) || gpos_bytes(qq)
                == gpos_bytes(q) || gosp_bytes(qq) == gosp_bytes(q) implies qq == q by {
                if spog_bytes(qq) == spog_bytes(q) {
                    lemma_quad_key_injective(
                        qq.subject, qq.predicate, qq.object, qq.graph_name,
                        q.subject, q.predicate, q.object, q.graph_name,
                    );
                }
                if posg_bytes(qq) == posg_bytes(q) {
                    lemma_quad_key_injective(
                        qq.predicate, qq.object, qq.subject, qq.graph_name,
                        q.predicate, q.object, q.subject, q.graph_name,
                    );
                }
                if ospg_bytes(qq) == ospg_bytes(q) {
                    lemma_quad_key_injective(
                        qq.object, qq.subject, qq.predicate, qq.graph_name,
                        q.object, q.subject, q.predicate, q.graph_name,
                    );
                }
                if gspo_bytes(qq) == gspo_bytes(q) {
                    lemma_quad_key_injective(
                        qq.graph_name, qq.subject, qq.predicate, qq.object,
                        q.graph_name, q.subject, q.predicate, q.object,
                    );
                }
                if gpos_bytes(qq) == gpos_bytes(q) {
                    lemma_quad_key_injective(
                        qq.graph_name, qq.predicate, qq.object, qq.subject,
                        q.graph_name, q.predicate, q.object, q.subject,
                    );
                }
                if gosp_bytes(qq) == gosp_bytes(q) {
                    lemma_quad_key_injective(
                        qq.graph_name, qq.object, qq.subject, qq.predicate,
                        q.graph_name, q.object, q.subject, q.predicate,
                    );
                }
            }
            assert(final(self)@.quads =~= old(self)@.quads.insert(q));
        }
    }

    /// Deletes the six permutation keys of a quad.
    fn store_remove_quad(&mut self, quad: &EncodedQuad)
        requires
            old(self).wf(),
        ensures
            final(self).wf(),
            final(self)@ == (StoreView {
                quads: old(self)@.quads.remove(*quad),
                strings: old(self)@.strings,
            }),
    {
        let q = *quad;
        let mut spog_key: Vec<u8> = Vec::new();
        write_spog_quad(&mut spog_key, quad);
        let mut posg_key: Vec<u8> = Vec::new();
        write_posg_quad(&mut posg_key, quad);
        let mut ospg_key: Vec<u8> = Vec::new();
        write_ospg_quad(&mut ospg_key, quad);
        let mut gspo_key: Vec<u8> = Vec::new();
        write_gspo_quad(&mut gspo_key, quad);
        let mut gpos_key: Vec<u8> = Vec::new();
        write_gpos_quad(&mut gpos_key, quad);
        let mut gosp_key: Vec<u8> = Vec::new();
        write_gosp_quad(&mut gosp_key, quad);
        index_remove(&mut self.spog, &spog_key);
        index_remove(&mut self.posg, &posg_key);
        index_remove(&mut self.ospg, &ospg_key);
        index_remove(&mut self.gspo, &gspo_key);
        index_remove(&mut self.gpos, &gpos_key);
        index_remove(&mut self.gosp, &gosp_key);
        proof {
            assert forall|qq: EncodedQuad| #[trigger]
                spog_bytes(qq) == spog_bytes(q) || posg_bytes(qq) == posg_bytes(q) || ospg_bytes(
                    qq,
                ) == ospg_bytes(q) || gspo_bytes(qq) == gspo_bytes(q) || gpos_bytes(qq)
                == gpos_bytes(q) || gosp_bytes(qq) == gosp_bytes(q) implies qq == q by {
                if spog_bytes(qq) == spog_bytes(q) {
                    lemma_quad_key_injective(
                        qq.subject, qq.predicate, qq.object, qq.graph_name,
                        q.subject, q.predicate, q.object, q.graph_name,
                    );
                }
                if posg_bytes(qq) == posg_bytes(q) {
                    lemma_quad_key_injective(
                        qq.predicate, qq.object, qq.subject, qq.graph_name,
                        q.predicate, q.object, q.subject, q.graph_name,
                    );
                }
                if ospg_bytes(qq) == ospg_bytes(q) {
                    lemma_quad_key_injective(
                        qq.object, qq.subject, qq.predicate, qq.graph_name,
                        q.object, q.subject, q.predicate, q.graph_name,
                    );
                }
                if gspo_bytes(qq) == gspo_bytes(q) {
                    lemma_quad_key_injective(
                        qq.graph_name, qq.subject, qq.predicate, qq.object,
                        q.graph_name, q.subject, q.predicate, q.object,
                    );
                }
                if gpos_bytes(qq) == gpos_bytes(q) {
                    lemma_quad_key_injective(
                        qq.graph_name, qq.predicate, qq.object, qq.subject,
                        q.graph_name, q.predicate, q.object, q.subject,
                    );
                }
                if gosp_bytes(qq) == gosp_bytes(q) {
                    lemma_quad_key_injective(
                        qq.graph_name, qq.object, qq.subject, qq.predicate,
                        q.graph_name, q.object, q.subject, q.predicate,
                    );
                }
            }
            assert(final(self)@.quads =~= old(self)@.quads.remove(q));
        }
    }

    /// Stages one dictionary pair; a collision changes nothing.
    fn store_insert_string(&mut self, key: StrHash, value: &str) -> (r: Result<(), Error>)
        requires
            old(self).wf(),
        ensures
            final(self).wf(),
            r matches Ok(()) ==> final(self)@ == (StoreView {
                quads: old(self)@.quads,
                strings: old(self)@.strings.insert(key.hash, value@),
            }),
            r is Err ==> final(self)@ == old(self)@ && r == Err::<(), Error>(Error::HashCollision),
            (r is Err) == (old(self)@.strings.contains_key(key.hash) && old(
                self,
            )@.strings[key.hash] != value@),
    {
        let r = self.id2str.insert_str(key, value);
        proof {
            assert(self@.quads =~= old(self)@.quads);
        }
        r
    }

    /// Applies a batch: either the whole of it, or on a hash collision none
    /// of it. The dictionary writes are first probed against a scratch copy
    /// so that a collision aborts before anything has been touched.
    pub(crate) fn apply_batch(&mut self, ops: &Vec<BatchOp>) -> (r: Result<(), Error>)
        requires
            old(self).wf(),
        ensures
            final(self).wf(),
            r matches Ok(()) ==> final(self)@ == apply_ops(old(self)@, ops_view(ops@)),
            r is Err ==> final(self)@ == old(self)@ && r == Err::<(), Error>(Error::HashCollision),
            (r is Ok) == ops_ok(old(self)@, ops_view(ops@)),
    {
        let ghost v0 = self@;
        let ghost ow = ops_view(ops@);
        let n = ops.len();
        // Phase one: probe every dictionary insert against a scratch copy.
        let mut scratch = self.id2str.duplicate();
        let mut i: usize = 0;
        while i < n
            invariant
                i <= n,
                n == ops@.len(),
                self == old(self),
                self.wf(),
                v0 == self@,
                ow == ops_view(ops@),
                scratch.wf(),
                scratch@ == apply_ops(v0, ow.take(i as int)).strings,
                ops_ok(v0, ow.take(i as int)),
            decreases n - i,
        {
            let ghost prefix = ow.take(i as int);
            proof {
                assert(ow.take(i + 1).drop_last() =~= prefix);
                assert(ow.take(i + 1).last() == ow[i as int]);
            }
            match &ops[i] {
                BatchOp::InsertString { hash, value } => {
                    match scratch.insert_str(StrHash { hash: *hash }, value.as_str()) {
                        Ok(()) => {},
                        Err(_) => {
                            proof {
                                assert(ow =~= ow.take(i + 1) + ow.skip(i + 1));
                                lemma_ops_ok_concat(v0, ow.take(i + 1), ow.skip(i + 1));
                            }
                            return Err(Error::HashCollision);
                        },
                    }
                },
                BatchOp::InsertQuad { quad: _ } => {},
                BatchOp::RemoveQuad { quad: _ } => {},
            }
            i = i + 1;
        }
        proof {
            assert(ow.take(n as int) =~= ow);
        }
        // Phase two: the batch is known collision-free; apply it.
        let mut i: usize = 0;
        while i < n
            invariant
                i <= n,
                n == ops@.len(),
                self.wf(),
                v0 == old(self)@,
                ow == ops_view(ops@),
                ops_ok(v0, ow),
                self@ == apply_ops(v0, ow.take(i as int)),
            decreases n - i,
        {
            let ghost prefix = ow.take(i as int);
            proof {
                assert(ow.take(i + 1).drop_last() =~= prefix);
                assert(ow.take(i + 1).last() == ow[i as int]);
                assert(ow =~= ow.take(i + 1) + ow.skip(i + 1));
                lemma_ops_ok_concat(v0, ow.take(i + 1), ow.skip(i + 1));
            }
            match &ops[i] {
                BatchOp::InsertString { hash, value } => {
                    match self.store_insert_string(StrHash { hash: *hash }, value.as_str()) {
                        Ok(()) => {},
                        Err(_) => {
                            proof {
                                assert(false);
                            }
                            return Err(Error::HashCollision);
                        },
                    }
                },
                BatchOp::InsertQuad { quad } => {
                    self.store_insert_quad(quad);
                },
                BatchOp::RemoveQuad { quad } => {
                    self.store_remove_quad(quad);
                },
            }
            i = i + 1;
        }
        proof {
            assert(ow.take(n as int) =~= ow);
        }
        Ok(())
    }
}


/// Keeps the keys of an index that start with a prefix.
fn matching_keys(idx: &Vec<Vec<u8>>, prefix: &Vec<u8>) -> (r: Vec<Vec<u8>>)
    requires
        index_unique(idx@),
        index_sorted(idx@),
    ensures
        forall|k: Seq<u8>| index_has(r@, k) == (index_has(idx@, k) && prefix@.is_prefix_of(k)),
        forall|i: int| 0 <= i < r@.len() ==> index_has(idx@, (#[trigger] r@[i])@),
        index_unique(r@),
        index_sorted(r@),
{
    let n = idx.len();
    let mut result: Vec<Vec<u8>> = Vec::new();
    let mut i: usize = 0;
    while i < n
        invariant
            i <= n,
            n == idx@.len(),
            index_unique(idx@),
            index_sorted(idx@),
            forall|k: Seq<u8>|
                index_has(result@, k) == ((exists|j: int|
                    0 <= j < i && (#[trigger] idx@[j])@ == k) && prefix@.is_prefix_of(k)),
            forall|m: int| 0 <= m < result@.len() ==> index_has(idx@, (#[trigger] result@[m])@),
            index_unique(result@),
            index_sorted(result@),
        decreases n - i,
    {
        if is_prefix_exec(prefix, &idx[i]) {
            let ghost before = result@;
            let item = copy_bytes(&idx[i]);
            result.push(item);
            proof {
                assert forall|k: Seq<u8>|
                    index_has(result@, k) == ((exists|j: int|
                        0 <= j < i + 1 && (#[trigger] idx@[j])@ == k) && prefix@.is_prefix_of(
                        k,
                    )) by {
                    if index_has(result@, k) {
                        let w = choose|m: int|
                            0 <= m < result@.len() && (#[trigger] result@[m])@ == k;
                        if w < before.len() {
                            assert(before[w]@ == k);
                            assert(index_has(before, k));
                        } else {
                            assert((idx@[i as int])@ == k);
                        }
                    }
                    if (exists|j: int| 0 <= j < i + 1 && (#[trigger] idx@[j])@ == k)
                        && prefix@.is_prefix_of(k) {
                        let j = choose|j: int| 0 <= j < i + 1 && (#[trigger] idx@[j])@ == k;
                        if j < i {
                            assert(index_has(before, k));
                            let w = choose|m: int|
                                0 <= m < before.len() && (#[trigger] before[m])@ == k;
                            assert((result@[w])@ == k);
                        } else {
                            assert((result@[result@.len() - 1])@ == k);
                        }
                    }
                }
                assert forall|m1: int, m2: int|
                    0 <= m1 < m2 < result@.len() implies (#[trigger] result@[m1])@ != (
                #[trigger] result@[m2])@ by {
                    if m2 == result@.len() - 1 {
                        if (result@[m1])@ == (idx@[i as int])@ {
                            assert(index_has(before, (idx@[i as int])@));
                            let j = choose|j: int|
                                0 <= j < i && (#[trigger] idx@[j])@ == (idx@[i as int])@;
                        }
                    }
                }
                assert forall|m1: int, m2: int|
                    0 <= m1 < m2 < result@.len() implies lex_lt(
                    (#[trigger] result@[m1])@,
                    (#[trigger] result@[m2])@,
                ) by {
                    if m2 == result@.len() - 1 {
                        assert(index_has(before, (before[m1])@));
                        let j = choose|j: int|
                            0 <= j < i && (#[trigger] idx@[j])@ == (before[m1])@;
                        assert(lex_lt((idx@[j])@, (idx@[i as int])@));
                    }
                }
            }
        } else {
            proof {
                assert forall|k: Seq<u8>|
                    index_has(result@, k) == ((exists|j: int|
                        0 <= j < i + 1 && (#[trigger] idx@[j])@ == k) && prefix@.is_prefix_of(
                        k,
                    )) by {
                    if (exists|j: int| 0 <= j < i + 1 && (#[trigger] idx@[j])@ == k)
                        && prefix@.is_prefix_of(k) {
                        let j = choose|j: int| 0 <= j < i + 1 && (#[trigger] idx@[j])@ == k;
                        assert(j < i);
                    }
                }
            }
        }
        i = i + 1;
    }
    result
}

impl RocksDbStore {
    /// Yields each stored quad whose spog key starts with `prefix`.
    fn spog_quads(&self, prefix: &Vec<u8>) -> (r: Vec<EncodedQuad>)
        requires
            self.wf(),
        ensures
            forall|q: EncodedQuad|
                r@.contains(q) == (self@.quads.contains(q) && prefix@.is_prefix_of(
                    #[trigger] spog_bytes(q),
                )),
            forall|a: int, b: int| 0 <= a < b < r@.len() ==> r@[a] != r@[b],
            forall|a: int, b: int|
                #![trigger r@[a], r@[b]]
                0 <= a < b < r@.len() ==> lex_lt(spog_bytes(r@[a]), spog_bytes(r@[b])),
    {
        let keys = matching_keys(&self.spog, prefix);
        let n = keys.len();
        let mut result: Vec<EncodedQuad> = Vec::new();
        let mut i: usize = 0;
        while i < n
            invariant
                i <= n,
                n == keys@.len(),
                self.wf(),
                index_unique(keys@),
                forall|k: Seq<u8>|
                    index_has(keys@, k) == (index_has(self.spog@, k) && prefix@.is_prefix_of(k)),
                forall|m: int|
                    0 <= m < keys@.len() ==> index_has(self.spog@, (#[trigger] keys@[m])@),
                result@.len() == i,
                forall|m: int| 0 <= m < i ==> (keys@[m])@ == spog_bytes(#[trigger] result@[m]),
            decreases n - i,
        {
            proof {
                assert(index_has(self.spog@, (keys@[i as int])@));
                let j = choose|j: int|
                    0 <= j < self.spog@.len() && (#[trigger] self.spog@[j])@ == (keys@[i as int])@;
                assert(is_spog_key((keys@[i as int])@));
                let w = choose|q: EncodedQuad| (keys@[i as int])@ == spog_bytes(q);
                lemma_quad_key_blocks(w.subject, w.predicate, w.object, w.graph_name);
            }
            match read_spog_quad(&keys[i]) {
                Ok(q) => {
                    result.push(q);
                },
                Err(_) => {
                    proof {
                        let w = choose|q: EncodedQuad| (keys@[i as int])@ == spog_bytes(q);
                        assert(false);
                    }
                    return Vec::new();
                },
            }
            i = i + 1;
        }
        proof {
            assert forall|q: EncodedQuad|
                result@.contains(q) == (self@.quads.contains(q) && prefix@.is_prefix_of(
                    spog_bytes(q),
                )) by {
                if result@.contains(q) {
                    let m = choose|m: int| 0 <= m < result@.len() && result@[m] == q;
                    assert((keys@[m])@ == spog_bytes(q));
                    assert(index_has(keys@, spog_bytes(q)));
                }
                if self@.quads.contains(q) && prefix@.is_prefix_of(spog_bytes(q)) {
                    assert(index_has(self.spog@, spog_bytes(q)));
                    assert(index_has(keys@, spog_bytes(q)));
                    let m = choose|m: int|
                        0 <= m < keys@.len() && (#[trigger] keys@[m])@ == spog_bytes(q);
                    assert(spog_bytes(result@[m]) == spog_bytes(q));
                    lemma_quad_key_injective(
                        result@[m].subject, result@[m].predicate, result@[m].object, result@[m].graph_name,
                        q.subject, q.predicate, q.object, q.graph_name,
                    );
                    assert(result@[m] == q);
                }
            }
            assert forall|a: int, b: int|
                0 <= a < b < result@.len() implies result@[a] != result@[b] by {
                assert((keys@[a])@ == spog_bytes(result@[a]));
                assert((keys@[b])@ == spog_bytes(result@[b]));
            }
            assert forall|a: int, b: int|
                #![trigger result@[a], result@[b]]
                0 <= a < b < result@.len() implies lex_lt(
                spog_bytes(result@[a]),
                spog_bytes(result@[b]),
            ) by {
                assert((keys@[a])@ == spog_bytes(result@[a]));
                assert((keys@[b])@ == spog_bytes(result@[b]));
                assert(lex_lt((keys@[a])@, (keys@[b])@));
            }
        }
        result
    }

    /// Yields each stored quad whose posg key starts with `prefix`.
    fn posg_quads(&self, prefix: &Vec<u8>) -> (r: Vec<EncodedQuad>)
        requires
            self.wf(),
        ensures
            forall|q: EncodedQuad|
                r@.contains(q) == (self@.quads.contains(q) && prefix@.is_prefix_of(
                    #[trigger] posg_bytes(q),
                )),
            forall|a: int, b: int| 0 <= a < b < r@.len() ==> r@[a] != r@[b],
            forall|a: int, b: int|
                #![trigger r@[a], r@[b]]
                0 <= a < b < r@.len() ==> lex_lt(posg_bytes(r@[a]), posg_bytes(r@[b])),
    {
        let keys = matching_keys(&self.posg, prefix);
        let n = keys.len();
        let mut result: Vec<EncodedQuad> = Vec::new();
        let mut i: usize = 0;
        while i < n
            invariant
                i <= n,
                n == keys@.len(),
                self.wf(),
                index_unique(keys@),
                forall|k: Seq<u8>|
                    index_has(keys@, k) == (index_has(self.posg@, k) && prefix@.is_prefix_of(k)),
                forall|m: int|
                    0 <= m < keys@.len() ==> index_has(self.posg@, (#[trigger] keys@[m])@),
                result@.len() == i,
                forall|m: int| 0 <= m < i ==> (keys@[m])@ == posg_bytes(#[trigger] result@[m]),
            decreases n - i,
        {
            proof {
                assert(index_has(self.posg@, (keys@[i as int])@));
                let j = choose|j: int|
                    0 <= j < self.posg@.len() && (#[trigger] self.posg@[j])@ == (keys@[i as int])@;
                assert(is_posg_key((keys@[i as int])@));
                let w = choose|q: EncodedQuad| (keys@[i as int])@ == posg_bytes(q);
                lemma_quad_key_blocks(w.predicate, w.object, w.subject, w.graph_name);
            }
            match read_posg_quad(&keys[i]) {
                Ok(q) => {
                    result.push(q);
                },
                Err(_) => {
                    proof {
                        let w = choose|q: EncodedQuad| (keys@[i as int])@ == posg_bytes(q);
                        assert(false);
                    }
                    return Vec::new();
                },
            }
            i = i + 1;
        }
        proof {
            assert forall|q: EncodedQuad|
                result@.contains(q) == (self@.quads.contains(q) && prefix@.is_prefix_of(
                    posg_bytes(q),
                )) by {
                if result@.contains(q) {
                    let m = choose|m: int| 0 <= m < result@.len() && result@[m] == q;
                    assert((keys@[m])@ == posg_bytes(q));
                    assert(index_has(keys@, posg_bytes(q)));
                }
                if self@.quads.contains(q) && prefix@.is_prefix_of(posg_bytes(q)) {
                    assert(index_has(self.posg@, posg_bytes(q)));
                    assert(index_has(keys@, posg_bytes(q)));
                    let m = choose|m: int|
                        0 <= m < keys@.len() && (#[trigger] keys@[m])@ == posg_bytes(q);
                    assert(posg_bytes(result@[m]) == posg_bytes(q));
                    lemma_quad_key_injective(
                        result@[m].predicate, result@[m].object, result@[m].subject, result@[m].graph_name,
                        q.predicate, q.object, q.subject, q.graph_name,
                    );
                    assert(result@[m] == q);
                }
            }
            assert forall|a: int, b: int|
                0 <= a < b < result@.len() implies result@[a] != result@[b] by {
                assert((keys@[a])@ == posg_bytes(result@[a]));
                assert((keys@[b])@ == posg_bytes(result@[b]));
            }
            assert forall|a: int, b: int|
                #![trigger result@[a], result@[b]]
                0 <= a < b < result@.len() implies lex_lt(
                posg_bytes(result@[a]),
                posg_bytes(result@[b]),
            ) by {
                assert((keys@[a])@ == posg_bytes(result@[a]));
                assert((keys@[b])@ == posg_bytes(result@[b]));
                assert(lex_lt((keys@[a])@, (keys@[b])@));
            }
        }
        result
    }

    /// Yields each stored quad whose ospg key starts with `prefix`.
    fn ospg_quads(&self, prefix: &Vec<u8>) -> (r: Vec<EncodedQuad>)
        requires
            self.wf(),
        ensures
            forall|q: EncodedQuad|
                r@.contains(q) == (self@.quads.contains(q) && prefix@.is_prefix_of(
                    #[trigger] ospg_bytes(q),
                )),
            forall|a: int, b: int| 0 <= a < b < r@.len() ==> r@[a] != r@[b],
            forall|a: int, b: int|
                #![trigger r@[a], r@[b]]
                0 <= a < b < r@.len() ==> lex_lt(ospg_bytes(r@[a]), ospg_bytes(r@[b])),
    {
        let keys = matching_keys(&self.ospg, prefix);
        let n = keys.len();
        let mut result: Vec<EncodedQuad> = Vec::new();
        let mut i: usize = 0;
        while i < n
            invariant
                i <= n,
                n == keys@.len(),
                self.wf(),
                index_unique(keys@),
                forall|k: Seq<u8>|
                    index_has(keys@, k) == (index_has(self.ospg@, k) && prefix@.is_prefix_of(k)),
                forall|m: int|
                    0 <= m < keys@.len() ==> index_has(self.ospg@, (#[trigger] keys@[m])@),
                result@.len() == i,
                forall|m: int| 0 <= m < i ==> (keys@[m])@ == ospg_bytes(#[trigger] result@[m]),
            decreases n - i,
        {
            proof {
                assert(index_has(self.ospg@, (keys@[i as int])@));
                let j = choose|j: int|
                    0 <= j < self.ospg@.len() && (#[trigger] self.ospg@[j])@ == (keys@[i as int])@;
                assert(is_ospg_key((keys@[i as int])@));
                let w = choose|q: EncodedQuad| (keys@[i as int])@ == ospg_bytes(q);
                lemma_quad_key_blocks(w.object, w.subject, w.predicate, w.graph_name);
            }
            match read_ospg_quad(&keys[i]) {
                Ok(q) => {
                    result.push(q);
                },
                Err(_) => {
                    proof {
                        let w = choose|q: EncodedQuad| (keys@[i as int])@ == ospg_bytes(q);
                        assert(false);
                    }
                    return Vec::new();
                },
            }
            i = i + 1;
        }
        proof {
            assert forall|q: EncodedQuad|
                result@.contains(q) == (self@.quads.contains(q) && prefix@.is_prefix_of(
                    ospg_bytes(q),
                )) by {
                if result@.contains(q) {
                    let m = choose|m: int| 0 <= m < result@.len() && result@[m] == q;
                    assert((keys@[m])@ == ospg_bytes(q));
                    assert(index_has(keys@, ospg_bytes(q)));
                }
                if self@.quads.contains(q) && prefix@.is_prefix_of(ospg_bytes(q)) {
                    assert(index_has(self.ospg@, ospg_bytes(q)));
                    assert(index_has(keys@, ospg_bytes(q)));
                    let m = choose|m: int|
                        0 <= m < keys@.len() && (#[trigger] keys@[m])@ == ospg_bytes(q);
                    assert(ospg_bytes(result@[m]) == ospg_bytes(q));
                    lemma_quad_key_injective(
                        result@[m].object, result@[m].subject, result@[m].predicate, result@[m].graph_name,
                        q.object, q.subject, q.predicate, q.graph_name,
                    );
                    assert(result@[m] == q);
                }
            }
            assert forall|a: int, b: int|
                0 <= a < b < result@.len() implies result@[a] != result@[b] by {
                assert((keys@[a])@ == ospg_bytes(result@[a]));
                assert((keys@[b])@ == ospg_bytes(result@[b]));
            }
            assert forall|a: int, b: int|
                #![trigger result@[a], result@[b]]
                0 <= a < b < result@.len() implies lex_lt(
                ospg_bytes(result@[a]),
                ospg_bytes(result@[b]),
            ) by {
                assert((keys@[a])@ == ospg_bytes(result@[a]));
                assert((keys@[b])@ == ospg_bytes(result@[b]));
                assert(lex_lt((keys@[a])@, (keys@[b])@));
            }
        }
        result
    }

    /// Yields each stored quad whose gspo key starts with `prefix`.
    fn gspo_quads(&self, prefix: &Vec<u8>) -> (r: Vec<EncodedQuad>)
        requires
            self.wf(),
        ensures
            forall|q: EncodedQuad|
                r@.contains(q) == (self@.quads.contains(q) && prefix@.is_prefix_of(
                    #[trigger] gspo_bytes(q),
                )),
            forall|a: int, b: int| 0 <= a < b < r@.len() ==> r@[a] != r@[b],
            forall|a: int, b: int|
                #![trigger r@[a], r@[b]]
                0 <= a < b < r@.len() ==> lex_lt(gspo_bytes(r@[a]), gspo_bytes(r@[b])),
    {
        let keys = matching_keys(&self.gspo, prefix);
        let n = keys.len();
        let mut result: Vec<EncodedQuad> = Vec::new();
        let mut i: usize = 0;
        while i < n
            invariant
                i <= n,
                n == keys@.len(),
                self.wf(),
                index_unique(keys@),
                forall|k: Seq<u8>|
                    index_has(keys@, k) == (index_has(self.gspo@, k) && prefix@.is_prefix_of(k)),
                forall|m: int|
                    0 <= m < keys@.len() ==> index_has(self.gspo@, (#[trigger] keys@[m])@),
                result@.len() == i,
                forall|m: int| 0 <= m < i ==> (keys@[m])@ == gspo_bytes(#[trigger] result@[m]),
            decreases n - i,
        {
            proof {
                assert(index_has(self.gspo@, (keys@[i as int])@));
                let j = choose|j: int|
                    0 <= j < self.gspo@.len() && (#[trigger] self.gspo@[j])@ == (keys@[i as int])@;
                assert(is_gspo_key((keys@[i as int])@));
                let w = choose|q: EncodedQuad| (keys@[i as int])@ == gspo_bytes(q);
                lemma_quad_key_blocks(w.graph_name, w.subject, w.predicate, w.object);
            }
            match read_gspo_quad(&keys[i]) {
                Ok(q) => {
                    result.push(q);
                },
                Err(_) => {
                    proof {
                        let w = choose|q: EncodedQuad| (keys@[i as int])@ == gspo_bytes(q);
                        assert(false);
                    }
                    return Vec::new();
                },
            }
            i = i + 1;
        }
        proof {
            assert forall|q: EncodedQuad|
                result@.contains(q) == (self@.quads.contains(q) && prefix@.is_prefix_of(
                    gspo_bytes(q),
                )) by {
                if result@.contains(q) {
                    let m = choose|m: int| 0 <= m < result@.len() && result@[m] == q;
                    assert((keys@[m])@ == gspo_bytes(q));
                    assert(index_has(keys@, gspo_bytes(q)));
                }
                if self@.quads.contains(q) && prefix@.is_prefix_of(gspo_bytes(q)) {
                    assert(index_has(self.gspo@, gspo_bytes(q)));
                    assert(index_has(keys@, gspo_bytes(q)));
                    let m = choose|m: int|
                        0 <= m < keys@.len() && (#[trigger] keys@[m])@ == gspo_bytes(q);
                    assert(gspo_bytes(result@[m]) == gspo_bytes(q));
                    lemma_quad_key_injective(
                        result@[m].graph_name, result@[m].subject, result@[m].predicate, result@[m].object,
                        q.graph_name, q.subject, q.predicate, q.object,
                    );
                    assert(result@[m] == q);
                }
            }
            assert forall|a: int, b: int|
                0 <= a < b < result@.len() implies result@[a] != result@[b] by {
                assert((keys@[a])@ == gspo_bytes(result@[a]));
                assert((keys@[b])@ == gspo_bytes(result@[b]));
            }
            assert forall|a: int, b: int|
                #![trigger result@[a], result@[b]]
                0 <= a < b < result@.len() implies lex_lt(
                gspo_bytes(result@[a]),
                gspo_bytes(result@[b]),
            ) by {
                assert((keys@[a])@ == gspo_bytes(result@[a]));
                assert((keys@[b])@ == gspo_bytes(result@[b]));
                assert(lex_lt((keys@[a])@, (keys@[b])@));
            }
        }
        result
    }

    /// Yields each stored quad whose gpos key starts with `prefix`.
    fn gpos_quads(&self, prefix: &Vec<u8>) -> (r: Vec<EncodedQuad>)
        requires
            self.wf(),
        ensures
            forall|q: EncodedQuad|
                r@.contains(q) == (self@.quads.contains(q) && prefix@.is_prefix_of(
                    #[trigger] gpos_bytes(q),
                )),
            forall|a: int, b: int| 0 <= a < b < r@.len() ==> r@[a] != r@[b],
            forall|a: int, b: int|
                #![trigger r@[a], r@[b]]
                0 <= a < b < r@.len() ==> lex_lt(gpos_bytes(r@[a]), gpos_bytes(r@[b])),
    {
        let keys = matching_keys(&self.gpos, prefix);
        let n = keys.len();
        let mut result: Vec<EncodedQuad> = Vec::new();
        let mut i: usize = 0;
        while i < n
            invariant
                i <= n,
                n == keys@.len(),
                self.wf(),
                index_unique(keys@),
                forall|k: Seq<u8>|
                    index_has(keys@, k) == (index_has(self.gpos@, k) && prefix@.is_prefix_of(k)),
                forall|m: int|
                    0 <= m < keys@.len() ==> index_has(self.gpos@, (#[trigger] keys@[m])@),
                result@.len() == i,
                forall|m: int| 0 <= m < i ==> (keys@[m])@ == gpos_bytes(#[trigger] result@[m]),
            decreases n - i,
        {
            proof {
                assert(index_has(self.gpos@, (keys@[i as int])@));
                let j = choose|j: int|
                    0 <= j < self.gpos@.len() && (#[trigger] self.gpos@[j])@ == (keys@[i as int])@;
                assert(is_gpos_key((keys@[i as int])@));
                let w = choose|q: EncodedQuad| (keys@[i as int])@ == gpos_bytes(q);
                lemma_quad_key_blocks(w.graph_name, w.predicate, w.object, w.subject);
            }
            match read_gpos_quad(&keys[i]) {
                Ok(q) => {
                    result.push(q);
                },
                Err(_) => {
                    proof {
                        let w = choose|q: EncodedQuad| (keys@[i as int])@ == gpos_bytes(q);
                        assert(false);
                    }
                    return Vec::new();
                },
            }
            i = i + 1;
        }
        proof {
            assert forall|q: EncodedQuad|
                result@.contains(q) == (self@.quads.contains(q) && prefix@.is_prefix_of(
                    gpos_bytes(q),
                )) by {
                if result@.contains(q) {
                    let m = choose|m: int| 0 <= m < result@.len() && result@[m] == q;
                    assert((keys@[m])@ == gpos_bytes(q));
                    assert(index_has(keys@, gpos_bytes(q)));
                }
                if self@.quads.contains(q) && prefix@.is_prefix_of(gpos_bytes(q)) {
                    assert(index_has(self.gpos@, gpos_bytes(q)));
                    assert(index_has(keys@, gpos_bytes(q)));
                    let m = choose|m: int|
                        0 <= m < keys@.len() && (#[trigger] keys@[m])@ == gpos_bytes(q);
                    assert(gpos_bytes(result@[m]) == gpos_bytes(q));
                    lemma_quad_key_injective(
                        result@[m].graph_name, result@[m].predicate, result@[m].object, result@[m].subject,
                        q.graph_name, q.predicate, q.object, q.subject,
                    );
                    assert(result@[m] == q);
                }
            }
            assert forall|a: int, b: int|
                0 <= a < b < result@.len() implies result@[a] != result@[b] by {
                assert((keys@[a])@ == gpos_bytes(result@[a]));
                assert((keys@[b])@ == gpos_bytes(result@[b]));
            }
            assert forall|a: int, b: int|
                #![trigger result@[a], result@[b]]
                0 <= a < b < result@.len() implies lex_lt(
                gpos_bytes(result@[a]),
                gpos_bytes(result@[b]),
            ) by {
                assert((keys@[a])@ == gpos_bytes(result@[a]));
                assert((keys@[b])@ == gpos_bytes(result@[b]));
                assert(lex_lt((keys@[a])@, (keys@[b])@));
            }
        }
        result
    }

    /// Yields each stored quad whose gosp key starts with `prefix`.
    fn gosp_quads(&self, prefix: &Vec<u8>) -> (r: Vec<EncodedQuad>)
        requires
            self.wf(),
        ensures
            forall|q: EncodedQuad|
                r@.contains(q) == (self@.quads.contains(q) && prefix@.is_prefix_of(
                    #[trigger] gosp_bytes(q),
                )),
            forall|a: int, b: int| 0 <= a < b < r@.len() ==> r@[a] != r@[b],
            forall|a: int, b: int|
                #![trigger r@[a], r@[b]]
                0 <= a < b < r@.len() ==> lex_lt(gosp_bytes(r@[a]), gosp_bytes(r@[b])),
    {
        let keys = matching_keys(&self.gosp, prefix);
        let n = keys.len();
        let mut result: Vec<EncodedQuad> = Vec::new();
        let mut i: usize = 0;
        while i < n
            invariant
                i <= n,
                n == keys@.len(),
                self.wf(),
                index_unique(keys@),
                forall|k: Seq<u8>|
                    index_has(keys@, k) == (index_has(self.gosp@, k) && prefix@.is_prefix_of(k)),
                forall|m: int|
                    0 <= m < keys@.len() ==> index_has(self.gosp@, (#[trigger] keys@[m])@),
                result@.len() == i,
                forall|m: int| 0 <= m < i ==> (keys@[m])@ == gosp_bytes(#[trigger] result@[m]),
            decreases n - i,
        {
            proof {
                assert(index_has(self.gosp@, (keys@[i as int])@));
                let j = choose|j: int|
                    0 <= j < self.gosp@.len() && (#[trigger] self.gosp@[j])@ == (keys@[i as int])@;
                assert(is_gosp_key((keys@[i as int])@));
                let w = choose|q: EncodedQuad| (keys@[i as int])@ == gosp_bytes(q);
                lemma_quad_key_blocks(w.graph_name, w.object, w.subject, w.predicate);
            }
            match read_gosp_quad(&keys[i]) {
                Ok(q) => {
                    result.push(q);
                },
                Err(_) => {
                    proof {
                        let w = choose|q: EncodedQuad| (keys@[i as int])@ == gosp_bytes(q);
                        assert(false);
                    }
                    return Vec::new();
                },
            }
            i = i + 1;
        }
        proof {
            assert forall|q: EncodedQuad|
                result@.contains(q) == (self@.quads.contains(q) && prefix@.is_prefix_of(
                    gosp_bytes(q),
                )) by {
                if result@.contains(q) {
                    let m = choose|m: int| 0 <= m < result@.len() && result@[m] == q;
                    assert((keys@[m])@ == gosp_bytes(q));
                    assert(index_has(keys@, gosp_bytes(q)));
                }
                if self@.quads.contains(q) && prefix@.is_prefix_of(gosp_bytes(q)) {
                    assert(index_has(self.gosp@, gosp_bytes(q)));
                    assert(index_has(keys@, gosp_bytes(q)));
                    let m = choose|m: int|
                        0 <= m < keys@.len() && (#[trigger] keys@[m])@ == gosp_bytes(q);
                    assert(gosp_bytes(result@[m]) == gosp_bytes(q));
                    lemma_quad_key_injective(
                        result@[m].graph_name, result@[m].object, result@[m].subject, result@[m].predicate,
                        q.graph_name, q.object, q.subject, q.predicate,
                    );
                    assert(result@[m] == q);
                }
            }
            assert forall|a: int, b: int|
                0 <= a < b < result@.len() implies result@[a] != result@[b] by {
                assert((keys@[a])@ == gosp_bytes(result@[a]));
                assert((keys@[b])@ == gosp_bytes(result@[b]));
            }
            assert forall|a: int, b: int|
                #![trigger result@[a], result@[b]]
                0 <= a < b < result@.len() implies lex_lt(
                gosp_bytes(result@[a]),
                gosp_bytes(result@[b]),
            ) by {
                assert((keys@[a])@ == gosp_bytes(result@[a]));
                assert((keys@[b])@ == gosp_bytes(result@[b]));
                assert(lex_lt((keys@[a])@, (keys@[b])@));
            }
        }
        result
    }

}


impl RocksDbStore {
    /// Yields each stored quad whose subject is the given term.
    pub fn quads_for_subject(&self, subject: EncodedTerm) -> (r: Vec<EncodedQuad>)
        requires
            self.wf(),
        ensures
            forall|q: EncodedQuad|
                #[trigger] r@.contains(q) == (self@.quads.contains(q) && q.subject == subject),
            forall|a: int, b: int| 0 <= a < b < r@.len() ==> r@[a] != r@[b],
            forall|a: int, b: int|
                #![trigger r@[a], r@[b]]
                0 <= a < b < r@.len() ==> lex_lt(spog_bytes(r@[a]), spog_bytes(r@[b])),
    {
        let prefix = encode_term(subject);
        let r = self.spog_quads(&prefix);
        proof {
            assert forall|q: EncodedQuad|
                prefix@.is_prefix_of(#[trigger] spog_bytes(q)) == (q.subject == subject) by {
                lemma_quad_key_prefix_1(subject, q.subject, q.predicate, q.object, q.graph_name);
            }
        }
        r
    }

    /// Yields each stored quad whose subject and predicate are the given terms.
    pub fn quads_for_subject_predicate(&self, subject: EncodedTerm, predicate: EncodedTerm) -> (r: Vec<EncodedQuad>)
        requires
            self.wf(),
        ensures
            forall|q: EncodedQuad|
                #[trigger] r@.contains(q) == (self@.quads.contains(q) && q.subject == subject && q.predicate == predicate),
            forall|a: int, b: int| 0 <= a < b < r@.len() ==> r@[a] != r@[b],
            forall|a: int, b: int|
                #![trigger r@[a], r@[b]]
                0 <= a < b < r@.len() ==> lex_lt(spog_bytes(r@[a]), spog_bytes(r@[b])),
    {
        let prefix = encode_term_pair(subject, predicate);
        let r = self.spog_quads(&prefix);
        proof {
            assert forall|q: EncodedQuad|
                prefix@.is_prefix_of(#[trigger] spog_bytes(q)) == (q.subject == subject && q.predicate == predicate) by {
                lemma_quad_key_prefix_2(subject, predicate, q.subject, q.predicate, q.object, q.graph_name);
            }
        }
        r
    }

    /// Yields each stored quad whose subject, predicate and object are the given terms.
    pub fn quads_for_subject_predicate_object(&self, subject: EncodedTerm, predicate: EncodedTerm, object: EncodedTerm) -> (r: Vec<EncodedQuad>)
        requires
            self.wf(),
        ensures
            forall|q: EncodedQuad|
                #[trigger] r@.contains(q) == (self@.quads.contains(q) && q.subject == subject && q.predicate == predicate && q.object == object),
            forall|a: int, b: int| 0 <= a < b < r@.len() ==> r@[a] != r@[b],
            forall|a: int, b: int|
                #![trigger r@[a], r@[b]]
                0 <= a < b < r@.len() ==> lex_lt(spog_bytes(r@[a]), spog_bytes(r@[b])),
    {
        let prefix = encode_term_triple(subject, predicate, object);
        let r = self.spog_quads(&prefix);
        proof {
            assert forall|q: EncodedQuad|
                prefix@.is_prefix_of(#[trigger] spog_bytes(q)) == (q.subject == subject && q.predicate == predicate && q.object == object) by {
                lemma_quad_key_prefix_3(subject, predicate, object, q.subject, q.predicate, q.object, q.graph_name);
            }
        }
        r
    }

    /// Yields each stored quad whose subject and object are the given terms.
    pub fn quads_for_subject_object(&self, subject: EncodedTerm, object: EncodedTerm) -> (r: Vec<EncodedQuad>)
        requires
            self.wf(),
        ensures
            forall|q: EncodedQuad|
                #[trigger] r@.contains(q) == (self@.quads.contains(q) && q.object == object && q.subject == subject),
            forall|a: int, b: int| 0 <= a < b < r@.len() ==> r@[a] != r@[b],
            forall|a: int, b: int|
                #![trigger r@[a], r@[b]]
                0 <= a < b < r@.len() ==> lex_lt(ospg_bytes(r@[a]), ospg_bytes(r@[b])),
    {
        let prefix = encode_term_pair(object, subject);
        let r = self.ospg_quads(&prefix);
        proof {
            assert forall|q: EncodedQuad|
                prefix@.is_prefix_of(#[trigger] ospg_bytes(q)) == (q.object == object && q.subject == subject) by {
                lemma_quad_key_prefix_2(object, subject, q.object, q.subject, q.predicate, q.graph_name);
            }
        }
        r
    }

    /// Yields each stored quad whose predicate is the given term.
    pub fn quads_for_predicate(&self, predicate: EncodedTerm) -> (r: Vec<EncodedQuad>)
        requires
            self.wf(),
        ensures
            forall|q: EncodedQuad|
                #[trigger] r@.contains(q) == (self@.quads.contains(q) && q.predicate == predicate),
            forall|a: int, b: int| 0 <= a < b < r@.len() ==> r@[a] != r@[b],
            forall|a: int, b: int|
                #![trigger r@[a], r@[b]]
                0 <= a < b < r@.len() ==> lex_lt(posg_bytes(r@[a]), posg_bytes(r@[b])),
    {
        let prefix = encode_term(predicate);
        let r = self.posg_quads(&prefix);
        proof {
            assert forall|q: EncodedQuad|
                prefix@.is_prefix_of(#[trigger] posg_bytes(q)) == (q.predicate == predicate) by {
                lemma_quad_key_prefix_1(predicate, q.predicate, q.object, q.subject, q.graph_name);
            }
        }
        r
    }

    /// Yields each stored quad whose predicate and object are the given terms.
    pub fn quads_for_predicate_object(&self, predicate: EncodedTerm, object: EncodedTerm) -> (r: Vec<EncodedQuad>)
        requires
            self.wf(),
        ensures
            forall|q: EncodedQuad|
                #[trigger] r@.contains(q) == (self@.quads.contains(q) && q.predicate == predicate && q.object == object),
            forall|a: int, b: int| 0 <= a < b < r@.len() ==> r@[a] != r@[b],
            forall|a: int, b: int|
                #![trigger r@[a], r@[b]]
                0 <= a < b < r@.len() ==> lex_lt(posg_bytes(r@[a]), posg_bytes(r@[b])),
    {
        let prefix = encode_term_pair(predicate, object);
        let r = self.posg_quads(&prefix);
        proof {
            assert forall|q: EncodedQuad|
                prefix@.is_prefix_of(#[trigger] posg_bytes(q)) == (q.predicate == predicate && q.object == object) by {
                lemma_quad_key_prefix_2(predicate, object, q.predicate, q.object, q.subject, q.graph_name);
            }
        }
        r
    }

    /// Yields each stored quad whose object is the given term.
    pub fn quads_for_object(&self, object: EncodedTerm) -> (r: Vec<EncodedQuad>)
        requires
            self.wf(),
        ensures
            forall|q: EncodedQuad|
                #[trigger] r@.contains(q) == (self@.quads.contains(q) && q.object == object),
            forall|a: int, b: int| 0 <= a < b < r@.len() ==> r@[a] != r@[b],
            forall|a: int, b: int|
                #![trigger r@[a], r@[b]]
                0 <= a < b < r@.len() ==> lex_lt(ospg_bytes(r@[a]), ospg_bytes(r@[b])),
    {
        let prefix = encode_term(object);
        let r = self.ospg_quads(&prefix);
        proof {
            assert forall|q: EncodedQuad|
                prefix@.is_prefix_of(#[trigger] ospg_bytes(q)) == (q.object == object) by {
                lemma_quad_key_prefix_1(object, q.object, q.subject, q.predicate, q.graph_name);
            }
        }
        r
    }

    /// Yields each stored quad whose graph is the given term.
    pub fn quads_for_graph(&self, graph_name: EncodedTerm) -> (r: Vec<EncodedQuad>)
        requires
            self.wf(),
        ensures
            forall|q: EncodedQuad|
                #[trigger] r@.contains(q) == (self@.quads.contains(q) && q.graph_name == graph_name),
            forall|a: int, b: int| 0 <= a < b < r@.len() ==> r@[a] != r@[b],
            forall|a: int, b: int|
                #![trigger r@[a], r@[b]]
                0 <= a < b < r@.len() ==> lex_lt(gspo_bytes(r@[a]), gspo_bytes(r@[b])),
    {
        let prefix = encode_term(graph_name);
        let r = self.gspo_quads(&prefix);
        proof {
            assert forall|q: EncodedQuad|
                prefix@.is_prefix_of(#[trigger] gspo_bytes(q)) == (q.graph_name == graph_name) by {
                lemma_quad_key_prefix_1(graph_name, q.graph_name, q.subject, q.predicate, q.object);
            }
        }
        r
    }

    /// Yields each stored quad whose subject and graph are the given terms.
    pub fn quads_for_subject_graph(&self, subject: EncodedTerm, graph_name: EncodedTerm) -> (r: Vec<EncodedQuad>)
        requires
            self.wf(),
        ensures
            forall|q: EncodedQuad|
                #[trigger] r@.contains(q) == (self@.quads.contains(q) && q.graph_name == graph_name && q.subject == subject),
            forall|a: int, b: int| 0 <= a < b < r@.len() ==> r@[a] != r@[b],
            forall|a: int, b: int|
                #![trigger r@[a], r@[b]]
                0 <= a < b < r@.len() ==> lex_lt(gspo_bytes(r@[a]), gspo_bytes(r@[b])),
    {
        let prefix = encode_term_pair(graph_name, subject);
        let r = self.gspo_quads(&prefix);
        proof {
            assert forall|q: EncodedQuad|
                prefix@.is_prefix_of(#[trigger] gspo_bytes(q)) == (q.graph_name == graph_name && q.subject == subject) by {
                lemma_quad_key_prefix_2(graph_name, subject, q.graph_name, q.subject, q.predicate, q.object);
            }
        }
        r
    }

    /// Yields each stored quad whose subject, predicate and graph are the given terms.
    pub fn quads_for_subject_predicate_graph(&self, subject: EncodedTerm, predicate: EncodedTerm, graph_name: EncodedTerm) -> (r: Vec<EncodedQuad>)
        requires
            self.wf(),
        ensures
            forall|q: EncodedQuad|
                #[trigger] r@.contains(q) == (self@.quads.contains(q) && q.graph_name == graph_name && q.subject == subject && q.predicate == predicate),
            forall|a: int, b: int| 0 <= a < b < r@.len() ==> r@[a] != r@[b],
            forall|a: int, b: int|
                #![trigger r@[a], r@[b]]
                0 <= a < b < r@.len() ==> lex_lt(gspo_bytes(r@[a]), gspo_bytes(r@[b])),
    {
        let prefix = encode_term_triple(graph_name, subject, predicate);
        let r = self.gspo_quads(&prefix);
        proof {
            assert forall|q: EncodedQuad|
                prefix@.is_prefix_of(#[trigger] gspo_bytes(q)) == (q.graph_name == graph_name && q.subject == subject && q.predicate == predicate) by {
                lemma_quad_key_prefix_3(graph_name, subject, predicate, q.graph_name, q.subject, q.predicate, q.object);
            }
        }
        r
    }

    /// Yields each stored quad whose subject, object and graph are the given terms.
    pub fn quads_for_subject_object_graph(&self, subject: EncodedTerm, object: EncodedTerm, graph_name: EncodedTerm) -> (r: Vec<EncodedQuad>)
        requires
            self.wf(),
        ensures
            forall|q: EncodedQuad|
                #[trigger] r@.contains(q) == (self@.quads.contains(q) && q.graph_name == graph_name && q.object == object && q.subject == subject),
            forall|a: int, b: int| 0 <= a < b < r@.len() ==> r@[a] != r@[b],
            forall|a: int, b: int|
                #![trigger r@[a], r@[b]]
                0 <= a < b < r@.len() ==> lex_lt(gosp_bytes(r@[a]), gosp_bytes(r@[b])),
    {
        let prefix = encode_term_triple(graph_name, object, subject);
        let r = self.gosp_quads(&prefix);
        proof {
            assert forall|q: EncodedQuad|
                prefix@.is_prefix_of(#[trigger] gosp_bytes(q)) == (q.graph_name == graph_name && q.object == object && q.subject == subject) by {
                lemma_quad_key_prefix_3(graph_name, object, subject, q.graph_name, q.object, q.subject, q.predicate);
            }
        }
        r
    }

    /// Yields each stored quad whose predicate and graph are the given terms.
    pub fn quads_for_predicate_graph(&self, predicate: EncodedTerm, graph_name: EncodedTerm) -> (r: Vec<EncodedQuad>)
        requires
            self.wf(),
        ensures
            forall|q: EncodedQuad|
                #[trigger] r@.contains(q) == (self@.quads.contains(q) && q.graph_name == graph_name && q.predicate == predicate),
            forall|a: int, b: int| 0 <= a < b < r@.len() ==> r@[a] != r@[b],
            forall|a: int, b: int|
                #![trigger r@[a], r@[b]]
                0 <= a < b < r@.len() ==> lex_lt(gpos_bytes(r@[a]), gpos_bytes(r@[b])),
    {
        let prefix = encode_term_pair(graph_name, predicate);
        let r = self.gpos_quads(&prefix);
        proof {
            assert forall|q: EncodedQuad|
                prefix@.is_prefix_of(#[trigger] gpos_bytes(q)) == (q.graph_name == graph_name && q.predicate == predicate) by {
                lemma_quad_key_prefix_2(graph_name, predicate, q.graph_name, q.predicate, q.object, q.subject);
            }
        }
        r
    }

    /// Yields each stored quad whose predicate, object and graph are the given terms.
    pub fn quads_for_predicate_object_graph(&self, predicate: EncodedTerm, object: EncodedTerm, graph_name: EncodedTerm) -> (r: Vec<EncodedQuad>)
        requires
            self.wf(),
        ensures
            forall|q: EncodedQuad|
                #[trigger] r@.contains(q) == (self@.quads.contains(q) && q.graph_name == graph_name && q.predicate == predicate && q.object == object),
            forall|a: int, b: int| 0 <= a < b < r@.len() ==> r@[a] != r@[b],
            forall|a: int, b: int|
                #![trigger r@[a], r@[b]]
                0 <= a < b < r@.len() ==> lex_lt(gpos_bytes(r@[a]), gpos_bytes(r@[b])),
    {
        let prefix = encode_term_triple(graph_name, predicate, object);
        let r = self.gpos_quads(&prefix);
        proof {
            assert forall|q: EncodedQuad|
                prefix@.is_prefix_of(#[trigger] gpos_bytes(q)) == (q.graph_name == graph_name && q.predicate == predicate && q.object == object) by {
                lemma_quad_key_prefix_3(graph_name, predicate, object, q.graph_name, q.predicate, q.object, q.subject);
            }
        }
        r
    }

    /// Yields each stored quad whose object and graph are the given terms.
    pub fn quads_for_object_graph(&self, object: EncodedTerm, graph_name: EncodedTerm) -> (r: Vec<EncodedQuad>)
        requires
            self.wf(),
        ensures
            forall|q: EncodedQuad|
                #[trigger] r@.contains(q) == (self@.quads.contains(q) && q.graph_name == graph_name && q.object == object),
            forall|a: int, b: int| 0 <= a < b < r@.len() ==> r@[a] != r@[b],
            forall|a: int, b: int|
                #![trigger r@[a], r@[b]]
                0 <= a < b < r@.len() ==> lex_lt(gosp_bytes(r@[a]), gosp_bytes(r@[b])),
    {
        let prefix = encode_term_pair(graph_name, object);
        let r = self.gosp_quads(&prefix);
        proof {
            assert forall|q: EncodedQuad|
                prefix@.is_prefix_of(#[trigger] gosp_bytes(q)) == (q.graph_name == graph_name && q.object == object) by {
                lemma_quad_key_prefix_2(graph_name, object, q.graph_name, q.object, q.subject, q.predicate);
            }
        }
        r
    }

    /// Yields every stored quad.
    pub fn quads(&self) -> (r: Vec<EncodedQuad>)
        requires
            self.wf(),
        ensures
            forall|q: EncodedQuad| #[trigger] r@.contains(q) == self@.quads.contains(q),
            forall|a: int, b: int| 0 <= a < b < r@.len() ==> r@[a] != r@[b],
            forall|a: int, b: int|
                #![trigger r@[a], r@[b]]
                0 <= a < b < r@.len() ==> lex_lt(spog_bytes(r@[a]), spog_bytes(r@[b])),
    {
        let prefix: Vec<u8> = Vec::new();
        let r = self.spog_quads(&prefix);
        proof {
            assert forall|q: EncodedQuad| prefix@.is_prefix_of(#[trigger] spog_bytes(q)) by {
                assert(prefix@ =~= spog_bytes(q).subrange(0, 0));
            }
        }
        r
    }

    /// Whether the store holds an encoded quad: a point lookup on the SPOG
    /// index.
    pub fn contains_encoded(&self, quad: &EncodedQuad) -> (r: bool)
        requires
            self.wf(),
        ensures
            r == self@.quads.contains(*quad),
    {
        let mut buffer: Vec<u8> = Vec::new();
        write_spog_quad(&mut buffer, quad);
        let r = index_contains(&self.spog, &buffer);
        proof {
            assert(buffer@ =~= spog_bytes(*quad));
        }
        r
    }

    /// Answers a quad pattern: every bound slot must match exactly, every
    /// unbound slot is free. Each of the sixteen bound-slot combinations is
    /// served by one prefix scan on the index whose order puts the bound
    /// slots first; the fully bound pattern is a point lookup. Results come
    /// in ascending byte order of the serving index's keys.
    pub fn encoded_quads_for_pattern(
        &self,
        subject: Option<EncodedTerm>,
        predicate: Option<EncodedTerm>,
        object: Option<EncodedTerm>,
        graph_name: Option<EncodedTerm>,
    ) -> (r: Vec<EncodedQuad>)
        requires
            self.wf(),
        ensures
            forall|q: EncodedQuad|
                #[trigger] r@.contains(q) == (self@.quads.contains(q) && pattern_matches(
                    subject,
                    predicate,
                    object,
                    graph_name,
                    q,
                )),
            forall|a: int, b: int| 0 <= a < b < r@.len() ==> r@[a] != r@[b],
            forall|a: int, b: int|
                #![trigger r@[a], r@[b]]
                0 <= a < b < r@.len() ==> lex_lt(
                    serving_key(subject, predicate, object, graph_name, r@[a]),
                    serving_key(subject, predicate, object, graph_name, r@[b]),
                ),
    {
        match subject {
            Some(subject) => match predicate {
                Some(predicate) => match object {
                    Some(object) => match graph_name {
                        Some(graph_name) => {
                            let quad = EncodedQuad::new(subject, predicate, object, graph_name);
                            let mut r: Vec<EncodedQuad> = Vec::new();
                            if self.contains_encoded(&quad) {
                                r.push(quad);
                            }
                            proof {
                                assert forall|q: EncodedQuad|
                                    #[trigger] r@.contains(q) == (self@.quads.contains(q)
                                        && pattern_matches(
                                        Some(subject),
                                        Some(predicate),
                                        Some(object),
                                        Some(graph_name),
                                        q,
                                    )) by {
                                    if r@.contains(q) {
                                        assert(r@[0] == quad);
                                        assert(q == quad);
                                    }
                                    if self@.quads.contains(q) && pattern_matches(
                                        Some(subject),
                                        Some(predicate),
                                        Some(object),
                                        Some(graph_name),
                                        q,
                                    ) {
                                        assert(q == quad);
                                        assert(r@[0] == q);
                                    }
                                }
                            }
                            r
                        },
                        None => self.quads_for_subject_predicate_object(
                            subject,
                            predicate,
                            object,
                        ),
                    },
                    None => match graph_name {
                        Some(graph_name) => self.quads_for_subject_predicate_graph(
                            subject,
                            predicate,
                            graph_name,
                        ),
                        None => self.quads_for_subject_predicate(subject, predicate),
                    },
                },
                None => match object {
                    Some(object) => match graph_name {
                        Some(graph_name) => self.quads_for_subject_object_graph(
                            subject,
                            object,
                            graph_name,
                        ),
                        None => self.quads_for_subject_object(subject, object),
                    },
                    None => match graph_name {
                        Some(graph_name) => self.quads_for_subject_graph(subject, graph_name),
                        None => self.quads_for_subject(subject),
                    },
                },
            },
            None => match predicate {
                Some(predicate) => match object {
                    Some(object) => match graph_name {
                        Some(graph_name) => self.quads_for_predicate_object_graph(
                            predicate,
                            object,
                            graph_name,
                        ),
                        None => self.quads_for_predicate_object(predicate, object),
                    },
                    None => match graph_name {
                        Some(graph_name) => self.quads_for_predicate_graph(predicate, graph_name),
                        None => self.quads_for_predicate(predicate),
                    },
                },
                None => match object {
                    Some(object) => match graph_name {
                        Some(graph_name) => self.quads_for_object_graph(object, graph_name),
                        None => self.quads_for_object(object),
                    },
                    None => match graph_name {
                        Some(graph_name) => self.quads_for_graph(graph_name),
                        None => self.quads(),
                    },
                },
            },
        }
    }

}


/// Serializes one encoded term as a scan prefix.
pub fn encode_term(t: EncodedTerm) -> (r: Vec<u8>)
    ensures
        r@ == term_bytes(t),
{
    let mut buffer: Vec<u8> = Vec::new();
    write_term(&mut buffer, t);
    proof {
        assert(buffer@ =~= term_bytes(t));
    }
    buffer
}

/// Serializes two encoded terms as a scan prefix.
pub fn encode_term_pair(t1: EncodedTerm, t2: EncodedTerm) -> (r: Vec<u8>)
    ensures
        r@ == term_bytes(t1) + term_bytes(t2),
{
    let mut buffer: Vec<u8> = Vec::new();
    write_term(&mut buffer, t1);
    write_term(&mut buffer, t2);
    proof {
        assert(buffer@ =~= term_bytes(t1) + term_bytes(t2));
    }
    buffer
}

/// Serializes three encoded terms as a scan prefix.
pub fn encode_term_triple(t1: EncodedTerm, t2: EncodedTerm, t3: EncodedTerm) -> (r: Vec<u8>)
    ensures
        r@ == term_bytes(t1) + term_bytes(t2) + term_bytes(t3),
{
    let mut buffer: Vec<u8> = Vec::new();
    write_term(&mut buffer, t1);
    write_term(&mut buffer, t2);
    write_term(&mut buffer, t3);
    proof {
        assert(buffer@ =~= term_bytes(t1) + term_bytes(t2) + term_bytes(t3));
    }
    buffer
}


/// One sequence leading another leading a third leads the third.
proof fn lemma_is_prefix_transitive<A>(a: Seq<A>, b: Seq<A>, c: Seq<A>)
    requires
        a.is_prefix_of(b),
        b.is_prefix_of(c),
    ensures
        a.is_prefix_of(c),
{
    assert(a =~= c.subrange(0, a.len() as int));
}

/// A sequence splits as any of its leading parts plus the rest.
proof fn lemma_prefix_decomposition<A>(a: Seq<A>, c: Seq<A>)
    requires
        a.is_prefix_of(c),
    ensures
        c == a + c.skip(a.len() as int),
{
    assert(c =~= a + c.skip(a.len() as int));
}

/// Collision safety at the dictionary: a string whose hash is already bound
/// to a different string cannot be staged.
pub proof fn lemma_collision_rejected(m: Map<u128, Seq<char>>, s1: Seq<char>, s2: Seq<char>)
    requires
        m.contains_key(crate::hash::str_hash(s1)),
        m[crate::hash::str_hash(s1)] == s1,
        s1 != s2,
        crate::hash::str_hash(s2) == crate::hash::str_hash(s1),
    ensures
        !pairs_ok(m, seq![(crate::hash::str_hash(s2), s2)]),
{
    let pairs = seq![(crate::hash::str_hash(s2), s2)];
    assert(pairs.drop_last() =~= Seq::<(u128, Seq<char>)>::empty());
}

impl RocksDbStore {
    /// Opens a fresh store: all seven columns empty but for the seeded
    /// dictionary. The path names the store for interface parity; this
    /// realization keeps the columns in memory.
    pub fn open(_path: &str) -> (r: Result<RocksDbStore, Error>)
        ensures
            r matches Ok(s) ==> s.wf() && s@.quads == Set::<EncodedQuad>::empty() && s@.strings
                == seed_strings(),
            (r is Ok) == seed_ok(),
    {
        let mut store = RocksDbStore {
            spog: Vec::new(),
            posg: Vec::new(),
            ospg: Vec::new(),
            gspo: Vec::new(),
            gpos: Vec::new(),
            gosp: Vec::new(),
            id2str: Dictionary::new(),
        };
        proof {
            assert(store.wf());
            assert(store@.quads =~= Set::<EncodedQuad>::empty());
            assert(store@.strings =~= Map::<u128, Seq<char>>::empty());
        }
        let ghost v0 = store@;
        let mut tx = RocksDbAutoTransaction::new();
        let _ = tx.set_first_strings();
        let ghost ops = tx@;
        let r = tx.commit(&mut store);
        proof {
            assert(ops =~= seed_ops());
            lemma_string_ops_apply(v0, seed_pairs());
        }
        match r {
            Ok(()) => Ok(store),
            Err(e) => Err(e),
        }
    }

    /// Looks a hash up in the dictionary.
    pub fn get_str(&self, id: StrHash) -> (r: Result<Option<String>, Error>)
        requires
            self.wf(),
        ensures
            r matches Ok(v) ==> ((v matches Some(s) ==> self@.strings.contains_key(id.hash) && s@
                == self@.strings[id.hash]) && (v is None ==> !self@.strings.contains_key(id.hash))),
            r is Ok,
    {
        Ok(self.id2str.get_str(id))
    }

    /// Whether the store holds a quad.
    pub fn contains(&self, quad: &Quad) -> (r: Result<bool, Error>)
        requires
            self.wf(),
        ensures
            r == Ok::<bool, Error>(self@.quads.contains(encoded_quad_of(quad@))),
    {
        let encoded = get_encoded_quad(quad);
        Ok(self.contains_encoded(&encoded))
    }

    /// Adds a quad: its strings enter the dictionary and its key enters all
    /// six indexes, atomically. Fails exactly when a staged string collides
    /// with the dictionary, and then changes nothing.
    pub fn insert(&mut self, quad: &Quad) -> (r: Result<(), Error>)
        requires
            old(self).wf(),
        ensures
            final(self).wf(),
            r matches Ok(()) ==> final(self)@.quads == old(self)@.quads.insert(
                encoded_quad_of(quad@),
            ) && final(self)@.strings == strings_with_pairs(
                old(self)@.strings,
                staged_quad(quad@),
            ),
            r is Err ==> final(self)@ == old(self)@ && r == Err::<(), Error>(Error::HashCollision),
            (r is Ok) == pairs_ok(old(self)@.strings, staged_quad(quad@)),
    {
        let mut tx = RocksDbTransaction::new();
        let _ = tx.insert(quad);
        let ghost ops = tx@;
        let r = tx.commit(self);
        proof {
            assert(ops =~= quad_ops(quad@));
            lemma_quad_ops_apply(old(self)@, quad@);
        }
        r
    }

    /// Removes a quad from all six indexes, atomically. Dictionary entries
    /// are never removed.
    pub fn remove(&mut self, quad: &Quad) -> (r: Result<(), Error>)
        requires
            old(self).wf(),
        ensures
            final(self).wf(),
            r == Ok::<(), Error>(()),
            final(self)@.quads == old(self)@.quads.remove(encoded_quad_of(quad@)),
            final(self)@.strings == old(self)@.strings,
    {
        let mut tx = RocksDbTransaction::new();
        let _ = tx.remove(quad);
        let ghost ops = tx@;
        let r = tx.commit(self);
        proof {
            assert(ops.len() == 1);
            assert(ops.last() == BatchOpV::RemoveQuad { quad: encoded_quad_of(quad@) });
            assert(ops.drop_last() =~= Seq::<BatchOpV>::empty());
            assert(ops_ok(old(self)@, ops.drop_last()));
            assert(apply_ops(old(self)@, ops.drop_last()) == old(self)@);
            assert(op_ok(apply_ops(old(self)@, ops.drop_last()), ops.last()));
            assert(ops_ok(old(self)@, ops));
            assert(apply_ops(old(self)@, ops) == apply_op(old(self)@, ops.last()));
        }
        match r {
            Ok(()) => Ok(()),
            Err(e) => {
                proof {
                    assert(false);
                }
                Err(e)
            },
        }
    }

    /// Runs a closure over a fresh transaction and commits what it returns.
    /// If the closure fails, or the commit hits a hash collision, nothing
    /// is persisted: reads before and after the call are identical. The
    /// call fails only for one of those two reasons: an error is either one
    /// the closure returned, or the collision error of a batch the closure
    /// built that does not apply.
    pub fn transaction<F: FnOnce(RocksDbTransaction) -> Result<RocksDbTransaction, Error>>(
        &mut self,
        f: F,
    ) -> (r: Result<(), Error>)
        requires
            old(self).wf(),
            forall|t: RocksDbTransaction|
                t@ == Seq::<BatchOpV>::empty() ==> #[trigger] f.requires((t,)),
        ensures
            final(self).wf(),
            r is Err ==> final(self)@ == old(self)@,
            r matches Ok(()) ==> exists|t0: RocksDbTransaction, t: RocksDbTransaction|
                t0@ == Seq::<BatchOpV>::empty() && #[trigger] f.ensures(
                    (t0,),
                    Ok::<RocksDbTransaction, Error>(t),
                ) && final(self)@ == apply_ops(old(self)@, t@) && ops_ok(old(self)@, t@),
            r matches Err(e) ==> (exists|t0: RocksDbTransaction|
                t0@ == Seq::<BatchOpV>::empty() && #[trigger] f.ensures(
                    (t0,),
                    Err::<RocksDbTransaction, Error>(e),
                )) || (exists|t0: RocksDbTransaction, t: RocksDbTransaction|
                t0@ == Seq::<BatchOpV>::empty() && #[trigger] f.ensures(
                    (t0,),
                    Ok::<RocksDbTransaction, Error>(t),
                ) && !ops_ok(old(self)@, t@) && e == Error::HashCollision),
    {
        let tx = RocksDbTransaction::new();
        let ghost t0 = tx;
        match f(tx) {
            Ok(filled) => {
                let ghost t = filled;
                let r = filled.commit(self);
                match r {
                    Ok(()) => {
                        proof {
                            assert(t0@ == Seq::<BatchOpV>::empty() && f.ensures(
                                (t0,),
                                Ok::<RocksDbTransaction, Error>(t),
                            ) && self@ == apply_ops(old(self)@, t@) && ops_ok(old(self)@, t@));
                        }
                        Ok(())
                    },
                    Err(e) => {
                        proof {
                            assert(t0@ == Seq::<BatchOpV>::empty() && f.ensures(
                                (t0,),
                                Ok::<RocksDbTransaction, Error>(t),
                            ) && !ops_ok(old(self)@, t@) && e == Error::HashCollision);
                        }
                        Err(e)
                    },
                }
            },
            Err(e) => {
                proof {
                    assert(t0@ == Seq::<BatchOpV>::empty() && f.ensures(
                        (t0,),
                        Err::<RocksDbTransaction, Error>(e),
                    ));
                }
                Err(e)
            },
        }
    }

    /// Bulk-loads parsed triples into a target graph, or the default graph
    /// when none is given, through an auto-commit transaction. On success
    /// the whole load is applied; on a hash collision some prefix of the
    /// batched operations may already have been flushed.
    pub fn load_graph(
        &mut self,
        triples: &Vec<Triple>,
        to_graph_name: Option<&NamedOrBlankNode>,
    ) -> (r: Result<(), Error>)
        requires
            old(self).wf(),
        ensures
            final(self).wf(),
            r matches Ok(()) ==> final(self)@ == apply_ops(
                old(self)@,
                graph_load_ops(triples_view(triples@), graph_view(to_graph_name)),
            ),
            r is Err ==> r == Err::<(), Error>(Error::HashCollision) && exists|k: Seq<BatchOpV>|
                #[trigger] k.is_prefix_of(
                    graph_load_ops(triples_view(triples@), graph_view(to_graph_name)),
                ) && final(self)@ == apply_ops(old(self)@, k),
            (r is Ok) == ops_ok(
                old(self)@,
                graph_load_ops(triples_view(triples@), graph_view(to_graph_name)),
            ),
    {
        let ghost ts = triples_view(triples@);
        let ghost gv = graph_view(to_graph_name);
        let ghost full = graph_load_ops(ts, gv);
        let ghost v0 = self@;
        let mut tx = RocksDbAutoTransaction::new();
        let ghost mut applied: Seq<BatchOpV> = Seq::empty();
        let n = triples.len();
        let mut i: usize = 0;
        while i < n
            invariant
                i <= n,
                n == triples@.len(),
                ts == triples_view(triples@),
                gv == graph_view(to_graph_name),
                full == graph_load_ops(ts, gv),
                v0 == old(self)@,
                self.wf(),
                self@ == apply_ops(v0, applied),
                ops_ok(v0, applied),
                applied + tx@ == graph_load_ops(ts.take(i as int), gv),
                applied.is_prefix_of(applied + tx@),
            decreases n - i,
        {
            let t = &triples[i];
            let ghost pre_tx = tx@;
            let ghost pre_applied = applied;
            let ghost step_ops = quad_ops(quad_of_triple(ts[i as int], gv));
            proof {
                assert(ts[i as int] == triples@[i as int]@);
                assert(ts.take(i + 1).drop_last() =~= ts.take(i as int));
                assert(ts.take(i + 1).last() == ts[i as int]);
            }
            let r = tx.insert_parts(&t.subject, &t.predicate, &t.object, to_graph_name, self);
            proof {
                assert(quad_of_triple(ts[i as int], gv) == (QuadV {
                    subject: t.subject@,
                    predicate: t.predicate.iri@,
                    object: t.object@,
                    graph_name: match to_graph_name {
                        Option::None => Option::None,
                        Option::Some(g) => Option::Some(g@),
                    },
                }));
            }
            match r {
                Ok(()) => {
                    proof {
                        if tx@ == pre_tx + step_ops {
                            assert(applied + tx@ =~= graph_load_ops(ts.take(i + 1), gv));
                        } else {
                            lemma_ops_ok_concat(v0, pre_applied, pre_tx + step_ops);
                            lemma_apply_ops_concat(v0, pre_applied, pre_tx + step_ops);
                            applied = pre_applied + (pre_tx + step_ops);
                            assert(applied =~= graph_load_ops(ts.take(i + 1), gv));
                            assert(applied + tx@ =~= graph_load_ops(ts.take(i + 1), gv));
                        }
                        assert(applied.is_prefix_of(applied + tx@)) by {
                            assert(applied =~= (applied + tx@).subrange(0, applied.len() as int));
                        }
                    }
                },
                Err(e) => {
                    proof {
                        lemma_graph_load_ops_prefix(ts, gv, i as int);
                        lemma_is_prefix_transitive(
                            applied,
                            graph_load_ops(ts.take(i as int), gv),
                            full,
                        );
                        let failed = pre_applied + (pre_tx + step_ops);
                        assert(failed =~= graph_load_ops(ts.take(i + 1), gv));
                        lemma_graph_load_ops_prefix(ts, gv, i + 1);
                        lemma_prefix_decomposition(failed, full);
                        lemma_ops_ok_concat(v0, failed, full.skip(failed.len() as int));
                        lemma_ops_ok_concat(v0, pre_applied, pre_tx + step_ops);
                        lemma_apply_ops_concat(v0, pre_applied, pre_tx + step_ops);
                    }
                    return Err(e);
                },
            }
            i = i + 1;
        }
        let ghost pre_tx = tx@;
        let r = tx.commit(self);
        proof {
            assert(ts.take(n as int) =~= ts);
            lemma_apply_ops_concat(v0, applied, pre_tx);
            lemma_ops_ok_concat(v0, applied, pre_tx);
            assert(applied + pre_tx =~= full);
        }
        match r {
            Ok(()) => Ok(()),
            Err(e) => {
                proof {
                    assert(applied.is_prefix_of(full)) by {
                        assert(applied =~= full.subrange(0, applied.len() as int));
                    }
                }
                Err(e)
            },
        }
    }

    /// Bulk-loads parsed quads through an auto-commit transaction, with the
    /// same partial-flush caveat as `load_graph`.
    pub fn load_dataset(&mut self, quads: &Vec<Quad>) -> (r: Result<(), Error>)
        requires
            old(self).wf(),
        ensures
            final(self).wf(),
            r matches Ok(()) ==> final(self)@ == apply_ops(
                old(self)@,
                dataset_load_ops(quads_view(quads@)),
            ),
            r is Err ==> r == Err::<(), Error>(Error::HashCollision) && exists|k: Seq<BatchOpV>|
                #[trigger] k.is_prefix_of(dataset_load_ops(quads_view(quads@))) && final(self)@
                    == apply_ops(old(self)@, k),
            (r is Ok) == ops_ok(old(self)@, dataset_load_ops(quads_view(quads@))),
    {
        let ghost qs = quads_view(quads@);
        let ghost full = dataset_load_ops(qs);
        let ghost v0 = self@;
        let mut tx = RocksDbAutoTransaction::new();
        let ghost mut applied: Seq<BatchOpV> = Seq::empty();
        let n = quads.len();
        let mut i: usize = 0;
        while i < n
            invariant
                i <= n,
                n == quads@.len(),
                qs == quads_view(quads@),
                full == dataset_load_ops(qs),
                v0 == old(self)@,
                self.wf(),
                self@ == apply_ops(v0, applied),
                ops_ok(v0, applied),
                applied + tx@ == dataset_load_ops(qs.take(i as int)),
                applied.is_prefix_of(applied + tx@),
            decreases n - i,
        {
            let q = &quads[i];
            let ghost pre_tx = tx@;
            let ghost pre_applied = applied;
            let ghost step_ops = quad_ops(qs[i as int]);
            proof {
                assert(qs[i as int] == quads@[i as int]@);
                assert(qs.take(i + 1).drop_last() =~= qs.take(i as int));
                assert(qs.take(i + 1).last() == qs[i as int]);
            }
            let graph_ref: Option<&NamedOrBlankNode> = match &q.graph_name {
                Option::None => Option::None,
                Option::Some(g) => Option::Some(g),
            };
            let r = tx.insert_parts(&q.subject, &q.predicate, &q.object, graph_ref, self);
            proof {
                assert(qs[i as int] == (QuadV {
                    subject: q.subject@,
                    predicate: q.predicate.iri@,
                    object: q.object@,
                    graph_name: match graph_ref {
                        Option::None => Option::None,
                        Option::Some(g) => Option::Some(g@),
                    },
                }));
            }
            match r {
                Ok(()) => {
                    proof {
                        if tx@ == pre_tx + step_ops {
                            assert(applied + tx@ =~= dataset_load_ops(qs.take(i + 1)));
                        } else {
                            lemma_ops_ok_concat(v0, pre_applied, pre_tx + step_ops);
                            lemma_apply_ops_concat(v0, pre_applied, pre_tx + step_ops);
                            applied = pre_applied + (pre_tx + step_ops);
                            assert(applied =~= dataset_load_ops(qs.take(i + 1)));
                            assert(applied + tx@ =~= dataset_load_ops(qs.take(i + 1)));
                        }
                        assert(applied.is_prefix_of(applied + tx@)) by {
                            assert(applied =~= (applied + tx@).subrange(0, applied.len() as int));
                        }
                    }
                },
                Err(e) => {
                    proof {
                        lemma_dataset_load_ops_prefix(qs, i as int);
                        lemma_is_prefix_transitive(
                            applied,
                            dataset_load_ops(qs.take(i as int)),
                            full,
                        );
                        let failed = pre_applied + (pre_tx + step_ops);
                        assert(failed =~= dataset_load_ops(qs.take(i + 1)));
                        lemma_dataset_load_ops_prefix(qs, i + 1);
                        lemma_prefix_decomposition(failed, full);
                        lemma_ops_ok_concat(v0, failed, full.skip(failed.len() as int));
                        lemma_ops_ok_concat(v0, pre_applied, pre_tx + step_ops);
                        lemma_apply_ops_concat(v0, pre_applied, pre_tx + step_ops);
                    }
                    return Err(e);
                },
            }
            i = i + 1;
        }
        let ghost pre_tx = tx@;
        let r = tx.commit(self);
        proof {
            assert(qs.take(n as int) =~= qs);
            lemma_apply_ops_concat(v0, applied, pre_tx);
            lemma_ops_ok_concat(v0, applied, pre_tx);
            assert(applied + pre_tx =~= full);
        }
        match r {
            Ok(()) => Ok(()),
            Err(e) => {
                proof {
                    assert(applied.is_prefix_of(full)) by {
                        assert(applied =~= full.subrange(0, applied.len() as int));
                    }
                }
                Err(e)
            },
        }
    }

    /// Answers a quad pattern at the term level: encodes the bound slots,
    /// scans, and decodes each hit back to logical order. Sound and
    /// complete: the result decodes each stored quad that matches exactly
    /// once, in ascending byte order of the serving index's keys; it fails
    /// with a corruption error exactly when a matching quad references a
    /// missing dictionary entry. A quad inserted through the store is
    /// retrievable this way by every pattern bound to its slots:
    /// `crate::transaction::lemma_inserted_quad_round_trip` discharges the
    /// decodability premise for normally inserted data.
    pub fn quads_for_pattern(
        &self,
        subject: Option<&NamedOrBlankNode>,
        predicate: Option<&NamedNodeBuf>,
        object: Option<&Term>,
        graph_name: Option<Option<&NamedOrBlankNode>>,
    ) -> (r: Result<Vec<Quad>, Error>)
        requires
            self.wf(),
        ensures
            r matches Ok(v) ==> pattern_result_sound(
                self@,
                subject_pattern(subject),
                predicate_pattern(predicate),
                object_pattern(object),
                graph_pattern(graph_name),
                v@,
            ) && pattern_result_complete(
                self@,
                subject_pattern(subject),
                predicate_pattern(predicate),
                object_pattern(object),
                graph_pattern(graph_name),
                v@,
            ),
            r matches Ok(v) ==> pattern_result_counted(
                self@,
                subject_pattern(subject),
                predicate_pattern(predicate),
                object_pattern(object),
                graph_pattern(graph_name),
                v@,
            ),
            (r is Err) == pattern_blocked(
                self@,
                subject_pattern(subject),
                predicate_pattern(predicate),
                object_pattern(object),
                graph_pattern(graph_name),
            ),
            r is Err ==> r == Err::<Vec<Quad>, Error>(Error::Corruption),
    {
        let s = match subject {
            Option::None => Option::<EncodedTerm>::None,
            Option::Some(t) => Option::Some(crate::codec::encode_named_or_blank(t)),
        };
        let p = match predicate {
            Option::None => Option::<EncodedTerm>::None,
            Option::Some(t) => Option::Some(
                EncodedTerm::NamedNode { iri_id: StrHash::new(t.as_str()).hash },
            ),
        };
        let o = match object {
            Option::None => Option::<EncodedTerm>::None,
            Option::Some(t) => Option::Some(crate::codec::encode_rdf_term(t)),
        };
        let g = match graph_name {
            Option::None => Option::<EncodedTerm>::None,
            Option::Some(Option::None) => Option::Some(EncodedTerm::DefaultGraph),
            Option::Some(Option::Some(t)) => Option::Some(crate::codec::encode_named_or_blank(t)),
        };
        proof {
            assert(s == subject_pattern(subject));
            assert(p == predicate_pattern(predicate));
            assert(o == object_pattern(object));
            assert(g == graph_pattern(graph_name));
        }
        let encoded = self.encoded_quads_for_pattern(s, p, o, g);
        let n = encoded.len();
        let mut result: Vec<Quad> = Vec::new();
        let mut i: usize = 0;
        while i < n
            invariant
                i <= n,
                n == encoded@.len(),
                self.wf(),
                s == subject_pattern(subject),
                p == predicate_pattern(predicate),
                o == object_pattern(object),
                g == graph_pattern(graph_name),
                forall|q: EncodedQuad|
                    #[trigger] encoded@.contains(q) == (self@.quads.contains(q)
                        && pattern_matches(s, p, o, g, q)),
                result@.len() == i,
                forall|j: int|
                    0 <= j < i ==> decode_quad_spec(encoded@[j], self@.strings) == Some(
                        (#[trigger] result@[j])@,
                    ),
            decreases n - i,
        {
            match decode_quad(&encoded[i], &self.id2str) {
                Ok(q) => {
                    result.push(q);
                },
                Err(e) => {
                    proof {
                        assert(encoded@.contains(encoded@[i as int]));
                        assert(pattern_blocked(self@, s, p, o, g));
                    }
                    return Err(e);
                },
            }
            i = i + 1;
        }
        proof {
            assert forall|j: int| 0 <= j < result@.len() implies #[trigger] decodes_match(
                self@,
                s,
                p,
                o,
                g,
                result@[j],
            ) by {
                assert(encoded@.contains(encoded@[j]));
                assert(decode_quad_spec(encoded@[j], self@.strings) == Some(result@[j]@));
                assert(decodes_match(self@, s, p, o, g, result@[j]));
            }
            assert(pattern_result_sound(self@, s, p, o, g, result@));
            assert forall|eq: EncodedQuad|
                self@.quads.contains(eq) && #[trigger] pattern_matches(s, p, o, g, eq)
                    implies decoded_in(self@, eq, result@) by {
                assert(encoded@.contains(eq));
                let j = choose|j: int| 0 <= j < encoded@.len() && encoded@[j] == eq;
                assert(decode_quad_spec(eq, self@.strings) == Some(result@[j]@));
                assert(decoded_in(self@, eq, result@));
            }
            assert(pattern_result_complete(self@, s, p, o, g, result@));
            assert(pattern_result_exact(self@, s, p, o, g, encoded@, result@));
            assert(pattern_result_exact(
                self@,
                subject_pattern(subject),
                predicate_pattern(predicate),
                object_pattern(object),
                graph_pattern(graph_name),
                encoded@,
                result@,
            ));
            assert(pattern_result_counted(
                self@,
                subject_pattern(subject),
                predicate_pattern(predicate),
                object_pattern(object),
                graph_pattern(graph_name),
                result@,
            ));
            assert(!pattern_blocked(self@, s, p, o, g)) by {
                if pattern_blocked(self@, s, p, o, g) {
                    let eq = choose|eq: EncodedQuad|
                        self@.quads.contains(eq) && #[trigger] pattern_matches(s, p, o, g, eq)
                            && decode_quad_spec(eq, self@.strings) is None;
                    assert(encoded@.contains(eq));
                    let j = choose|j: int| 0 <= j < encoded@.len() && encoded@[j] == eq;
                    assert(decode_quad_spec(eq, self@.strings) == Some(result@[j]@));
                }
            }
        }
        Ok(result)
    }
}

} // verus!
