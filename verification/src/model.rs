//! The RDF data model: named nodes, blank nodes, literals, terms and quads,
//! with the validity predicates their constructors establish.

use vstd::prelude::*;
use vstd::string::StrSliceExecFns;
use vstd::string::StringExecFns;

use crate::Error;
use crate::lexical::str_eq;

verus! {

/// Whether `c` is an ASCII letter.
pub open spec fn is_ascii_alpha(c: char) -> bool {
    (65 <= c as u32 <= 90) || (97 <= c as u32 <= 122)
}

/// Whether `c` is an ASCII letter or digit.
pub open spec fn is_ascii_alphanumeric(c: char) -> bool {
    is_ascii_alpha(c) || (48 <= c as u32 <= 57)
}

/// Whether `c` may appear in an IRI scheme after the first character.
pub open spec fn is_scheme_char(c: char) -> bool {
    is_ascii_alphanumeric(c) || c == '+' || c == '-' || c == '.'
}

/// Whether `c` may never appear in an IRI:control characters, space, and the
/// characters that IRI syntax excludes.
pub open spec fn is_forbidden_iri_char(c: char) -> bool {
    (c as u32) <= 32 || (c as u32) == 127 || c == '<' || c == '>' || c == '"' || c == '{' || c
        == '}' || c == '|' || c == '^' || c == '`' || c == '\\'
}

/// A well-formed absolute IRI: a scheme (a letter followed by letters,
/// digits, `+`, `-` or `.`) terminated by a colon, and no forbidden
/// character anywhere.
pub open spec fn valid_iri(s: Seq<char>) -> bool {
    &&& s.len() > 0
    &&& is_ascii_alpha(s[0])
    &&& exists|k: int|
        1 <= k < s.len() && s[k] == ':' && (forall|i: int| 1 <= i < k ==> is_scheme_char(
            #[trigger] s[i],
        ))
    &&& forall|i: int| 0 <= i < s.len() ==> !is_forbidden_iri_char(#[trigger] s[i])
}

/// Checks `valid_iri` by a single scan.
pub fn check_iri(s: &str) -> (r: bool)
    ensures
        r == valid_iri(s@),
{
    let n = s.unicode_len();
    if n == 0 {
        return false;
    }
    let c0 = s.get_char(0);
    let u0 = c0 as u32;
    if !((65 <= u0 && u0 <= 90) || (97 <= u0 && u0 <= 122)) {
        return false;
    }
    // Find the scheme-terminating colon, checking scheme characters on the
    // way, then check the rest for forbidden characters.
    let mut i: usize = 1;
    while i < n && s.get_char(i) != ':'
        invariant
            1 <= i <= n,
            n == s@.len(),
            forall|j: int| 1 <= j < i ==> s@[j] != ':' && is_scheme_char(#[trigger] s@[j]),
        decreases n - i,
    {
        let c = s.get_char(i);
        let u = c as u32;
        let scheme_ok = (65 <= u && u <= 90) || (97 <= u && u <= 122) || (48 <= u && u <= 57) || c
            == '+' || c == '-' || c == '.';
        if !scheme_ok {
            proof {
                assert(forall|k: int|
                    1 <= k < s@.len() && #[trigger] s@[k] == ':' ==> k > i && !is_scheme_char(
                        s@[i as int],
                    ));
            }
            return false;
        }
        i = i + 1;
    }
    if i == n {
        proof {
            assert(forall|k: int| 1 <= k < s@.len() ==> #[trigger] s@[k] != ':');
        }
        return false;
    }
    let colon = i;
    let ghost colon_pos = colon as int;
    let mut j: usize = 0;
    while j < n
        invariant
            j <= n,
            n == s@.len(),
            1 <= colon_pos < n,
            s@[colon_pos] == ':',
            forall|k: int| 1 <= k < colon_pos ==> is_scheme_char(#[trigger] s@[k]),
            is_ascii_alpha(s@[0]),
            forall|k: int| 0 <= k < j ==> !is_forbidden_iri_char(#[trigger] s@[k]),
        decreases n - j,
    {
        let c = s.get_char(j);
        let u = c as u32;
        if u <= 32 || u == 127 || c == '<' || c == '>' || c == '"' || c == '{' || c == '}' || c
            == '|' || c == '^' || c == '`' || c == '\\' {
            return false;
        }
        j = j + 1;
    }
    true
}

/// An owned RDF named node: an IRI.
#[derive(Clone, Debug, PartialEq, Eq, Hash)]
pub struct NamedNodeBuf {
    /// The IRI. Public for specification; use [`NamedNodeBuf::parse`] to
    /// build a validated node.
    pub iri: String,
}

impl NamedNodeBuf {
    /// Whether the node holds a well-formed IRI. Established by `parse`.
    pub open spec fn wf(&self) -> bool {
        valid_iri(self.iri@)
    }

    /// Validates and wraps an IRI. Returns an error exactly when the string
    /// is not a well-formed absolute IRI.
    pub fn parse(iri: String) -> (r: Result<NamedNodeBuf, Error>)
        ensures
            r matches Ok(node) ==> valid_iri(iri@) && node.iri@ == iri@ && node.wf(),
            r is Err ==> !valid_iri(iri@) && r == Err::<NamedNodeBuf, Error>(Error::InvalidInput),
    {
        if check_iri(iri.as_str()) {
            Ok(NamedNodeBuf { iri })
        } else {
            Err(Error::InvalidInput)
        }
    }

    /// Wraps a string as an IRI without validation, for well-known
    /// vocabulary constants.
    pub fn new_unchecked(iri: String) -> (r: NamedNodeBuf)
        ensures
            r.iri@ == iri@,
    {
        NamedNodeBuf { iri }
    }

    /// The IRI as a string slice.
    pub fn as_str(&self) -> (r: &str)
        ensures
            r@ == self.iri@,
    {
        self.iri.as_str()
    }
}

/// Relies on rand::random; nothing is assumed of the drawn value. The
/// thread-local generator behind it panics if the operating system's
/// entropy source fails at its first use — an environment failure of the
/// same kind as resource exhaustion, outside any contract here.
pub assume_specification<T>[ rand::random::<T> ]() -> (r: T)
    where rand::distributions::Standard: rand::distributions::Distribution<T>
;

/// An RDF blank node, identified by a 128-bit number scoped to the store.
#[derive(Clone, Copy, Debug, PartialEq, Eq, Structural, Hash)]
pub struct BlankNode {
    /// The 128-bit identifier.
    pub id: u128,
}

impl BlankNode {
    /// Mints a blank node with a fresh random identifier. Relies on
    /// rand::random for the identifier; nothing is assumed of its value.
    pub fn new() -> BlankNode {
        BlankNode { id: rand::random::<u128>() }
    }

    /// A blank node with the given identifier, as when re-reading a label
    /// that this store minted earlier.
    pub fn new_from_unique_id(id: u128) -> (r: BlankNode)
        ensures
            r.id == id,
    {
        BlankNode { id }
    }
}

/// A well-formed language tag: letters, digits and single hyphens, starting
/// with a letter and not ending with a hyphen.
pub open spec fn valid_language(s: Seq<char>) -> bool {
    &&& s.len() > 0
    &&& is_ascii_alpha(s[0])
    &&& forall|i: int|
        0 <= i < s.len() ==> (is_ascii_alphanumeric(#[trigger] s[i]) || s[i] == '-')
    &&& s[s.len() - 1] != '-'
    &&& forall|i: int| 0 <= i < s.len() - 1 ==> !(#[trigger] s[i] == '-' && s[i + 1] == '-')
}

/// Checks `valid_language` by a single scan.
pub fn check_language(s: &str) -> (r: bool)
    ensures
        r == valid_language(s@),
{
    let n = s.unicode_len();
    if n == 0 {
        return false;
    }
    let c0 = s.get_char(0);
    let u0 = c0 as u32;
    if !((65 <= u0 && u0 <= 90) || (97 <= u0 && u0 <= 122)) {
        return false;
    }
    if s.get_char(n - 1) == '-' {
        return false;
    }
    let mut i: usize = 0;
    let mut previous_hyphen = false;
    while i < n
        invariant
            i <= n,
            n == s@.len(),
            forall|j: int|
                0 <= j < i ==> (is_ascii_alphanumeric(#[trigger] s@[j]) || s@[j] == '-'),
            forall|j: int| 0 <= j < i - 1 ==> !(#[trigger] s@[j] == '-' && s@[j + 1] == '-'),
            previous_hyphen == (i > 0 && s@[i - 1] == '-'),
        decreases n - i,
    {
        let c = s.get_char(i);
        let u = c as u32;
        let hyphen = c == '-';
        if !((65 <= u && u <= 90) || (97 <= u && u <= 122) || (48 <= u && u <= 57) || hyphen) {
            return false;
        }
        if hyphen && previous_hyphen {
            return false;
        }
        previous_hyphen = hyphen;
        i = i + 1;
    }
    true
}

/// The IRI of `xsd:string`, the implicit datatype of simple literals.
pub open spec fn xsd_string_iri() -> Seq<char> {
    "http://www.w3.org/2001/XMLSchema#string"@
}

/// The IRI of `rdf:langString`, the implicit datatype of language-tagged
/// literals.
pub open spec fn rdf_lang_string_iri() -> Seq<char> {
    "http://www.w3.org/1999/02/22-rdf-syntax-ns#langString"@
}

/// The IRI of `xsd:boolean`.
pub open spec fn xsd_boolean_iri() -> Seq<char> {
    "http://www.w3.org/2001/XMLSchema#boolean"@
}

/// The IRI of `xsd:integer`.
pub open spec fn xsd_integer_iri() -> Seq<char> {
    "http://www.w3.org/2001/XMLSchema#integer"@
}

/// The `xsd:string` named node.
pub fn xsd_string() -> (r: NamedNodeBuf)
    ensures
        r.iri@ == xsd_string_iri(),
{
    NamedNodeBuf::new_unchecked(String::from_str("http://www.w3.org/2001/XMLSchema#string"))
}

/// The `rdf:langString` named node.
pub fn rdf_lang_string() -> (r: NamedNodeBuf)
    ensures
        r.iri@ == rdf_lang_string_iri(),
{
    NamedNodeBuf::new_unchecked(
        String::from_str("http://www.w3.org/1999/02/22-rdf-syntax-ns#langString"),
    )
}

/// The `xsd:boolean` named node.
pub fn xsd_boolean() -> (r: NamedNodeBuf)
    ensures
        r.iri@ == xsd_boolean_iri(),
{
    NamedNodeBuf::new_unchecked(String::from_str("http://www.w3.org/2001/XMLSchema#boolean"))
}

/// The `xsd:integer` named node.
pub fn xsd_integer() -> (r: NamedNodeBuf)
    ensures
        r.iri@ == xsd_integer_iri(),
{
    NamedNodeBuf::new_unchecked(String::from_str("http://www.w3.org/2001/XMLSchema#integer"))
}

/// An RDF literal: a lexical form together with nothing, a language tag, or
/// a datatype IRI.
#[derive(Clone, Debug, PartialEq, Eq, Hash)]
pub enum Literal {
    /// A simple literal; its datatype is implicitly `xsd:string`.
    Simple {
        /// The lexical form.
        value: String,
    },
    /// A language-tagged string; its datatype is implicitly
    /// `rdf:langString`.
    LanguageTagged {
        /// The lexical form.
        value: String,
        /// The language tag.
        language: String,
    },
    /// A literal with an explicit datatype other than `xsd:string`.
    Typed {
        /// The lexical form.
        value: String,
        /// The datatype IRI.
        datatype: NamedNodeBuf,
    },
}

impl Literal {
    /// A simple (`xsd:string`) literal.
    pub fn new_simple_literal(value: String) -> (r: Literal)
        ensures
            r == (Literal::Simple { value }),
    {
        Literal::Simple { value }
    }

    /// A language-tagged literal. Returns an error exactly when the
    /// language tag is ill-formed.
    pub fn new_language_tagged_literal(value: String, language: String) -> (r: Result<
        Literal,
        Error,
    >)
        ensures
            r matches Ok(l) ==> valid_language(language@) && l == (Literal::LanguageTagged {
                value,
                language,
            }),
            r is Err ==> !valid_language(language@) && r == Err::<Literal, Error>(
                Error::InvalidInput,
            ),
    {
        if check_language(language.as_str()) {
            Ok(Literal::LanguageTagged { value, language })
        } else {
            Err(Error::InvalidInput)
        }
    }

    /// A typed literal. A datatype of `xsd:string` yields a simple literal,
    /// so that the two spellings of the same term coincide.
    pub fn new_typed_literal(value: String, datatype: NamedNodeBuf) -> (r: Literal)
        ensures
            datatype.iri@ == xsd_string_iri() ==> r == (Literal::Simple { value }),
            datatype.iri@ != xsd_string_iri() ==> r == (Literal::Typed { value, datatype }),
    {
        if str_eq(datatype.as_str(), "http://www.w3.org/2001/XMLSchema#string") {
            Literal::Simple { value }
        } else {
            Literal::Typed { value, datatype }
        }
    }

    /// The `xsd:integer` literal of a 64-bit value, in canonical form.
    pub fn from_integer(v: i64) -> (r: Literal)
        ensures
            r matches Literal::Typed { value, datatype } && value@
                == crate::lexical::integer_canonical_lexical(v as int) && datatype.iri@
                == xsd_integer_iri(),
    {
        Literal::Typed { value: crate::lexical::integer_to_string(v), datatype: xsd_integer() }
    }

    /// The `xsd:boolean` literal of a boolean, in canonical form.
    pub fn from_boolean(v: bool) -> (r: Literal)
        ensures
            r matches Literal::Typed { value, datatype } && value@ == (if v {
                "true"@
            } else {
                "false"@
            }) && datatype.iri@ == xsd_boolean_iri(),
    {
        Literal::Typed { value: crate::lexical::boolean_to_string(v), datatype: xsd_boolean() }
    }
}

/// A subject or graph-name position: a named node or a blank node.
#[derive(Clone, Debug, PartialEq, Eq, Hash)]
pub enum NamedOrBlankNode {
    /// A named node.
    NamedNode(NamedNodeBuf),
    /// A blank node.
    BlankNode(BlankNode),
}

/// Any RDF term valid in object position.
#[derive(Clone, Debug, PartialEq, Eq, Hash)]
pub enum Term {
    /// A named node.
    NamedNode(NamedNodeBuf),
    /// A blank node.
    BlankNode(BlankNode),
    /// A literal.
    Literal(Literal),
}

/// An RDF statement tagged with the graph holding it; `None` is the default
/// graph.
#[derive(Clone, Debug, PartialEq, Eq, Hash)]
pub struct Quad {
    /// The subject.
    pub subject: NamedOrBlankNode,
    /// The predicate.
    pub predicate: NamedNodeBuf,
    /// The object.
    pub object: Term,
    /// The containing graph; `None` is the default graph.
    pub graph_name: Option<NamedOrBlankNode>,
}

impl Quad {
    /// Builds a quad from its components.
    pub fn new(
        subject: NamedOrBlankNode,
        predicate: NamedNodeBuf,
        object: Term,
        graph_name: Option<NamedOrBlankNode>,
    ) -> (r: Quad)
        ensures
            r == (Quad { subject, predicate, object, graph_name }),
    {
        Quad { subject, predicate, object, graph_name }
    }
}

/// The mathematical image of a literal: its strings as character sequences.
pub enum LiteralV {
    /// A simple literal.
    Simple { value: Seq<char> },
    /// A language-tagged literal.
    LanguageTagged { value: Seq<char>, language: Seq<char> },
    /// A typed literal.
    Typed { value: Seq<char>, datatype: Seq<char> },
}

/// The mathematical image of a subject or graph-name term.
pub enum NamedOrBlankNodeV {
    /// A named node, by its IRI.
    NamedNode(Seq<char>),
    /// A blank node, by its identifier.
    BlankNode(u128),
}

/// The mathematical image of a term.
pub enum TermV {
    /// A named node, by its IRI.
    NamedNode(Seq<char>),
    /// A blank node, by its identifier.
    BlankNode(u128),
    /// A literal.
    Literal(LiteralV),
}

/// The mathematical image of a quad.
pub struct QuadV {
    /// The subject.
    pub subject: NamedOrBlankNodeV,
    /// The predicate IRI.
    pub predicate: Seq<char>,
    /// The object.
    pub object: TermV,
    /// The containing graph; `None` is the default graph.
    pub graph_name: Option<NamedOrBlankNodeV>,
}

impl View for NamedNodeBuf {
    type V = Seq<char>;

    open spec fn view(&self) -> Seq<char> {
        self.iri@
    }
}

impl View for Literal {
    type V = LiteralV;

    open spec fn view(&self) -> LiteralV {
        match self {
            Literal::Simple { value } => LiteralV::Simple { value: value@ },
            Literal::LanguageTagged { value, language } => LiteralV::LanguageTagged {
                value: value@,
                language: language@,
            },
            Literal::Typed { value, datatype } => LiteralV::Typed {
                value: value@,
                datatype: datatype.iri@,
            },
        }
    }
}

impl View for NamedOrBlankNode {
    type V = NamedOrBlankNodeV;

    open spec fn view(&self) -> NamedOrBlankNodeV {
        match self {
            NamedOrBlankNode::NamedNode(n) => NamedOrBlankNodeV::NamedNode(n.iri@),
            NamedOrBlankNode::BlankNode(b) => NamedOrBlankNodeV::BlankNode(b.id),
        }
    }
}

impl View for Term {
    type V = TermV;

    open spec fn view(&self) -> TermV {
        match self {
            Term::NamedNode(n) => TermV::NamedNode(n.iri@),
            Term::BlankNode(b) => TermV::BlankNode(b.id),
            Term::Literal(l) => TermV::Literal(l@),
        }
    }
}

impl View for Quad {
    type V = QuadV;

    open spec fn view(&self) -> QuadV {
        QuadV {
            subject: self.subject@,
            predicate: self.predicate.iri@,
            object: self.object@,
            graph_name: match self.graph_name {
                Option::None => Option::None,
                Option::Some(g) => Option::Some(g@),
            },
        }
    }
}

/// A triple, as a graph loader produces before a target graph is chosen.
#[derive(Clone, Debug, PartialEq, Eq, Hash)]
pub struct Triple {
    /// The subject.
    pub subject: NamedOrBlankNode,
    /// The predicate.
    pub predicate: NamedNodeBuf,
    /// The object.
    pub object: Term,
}

impl Triple {
    /// Builds a triple from its components.
    pub fn new(subject: NamedOrBlankNode, predicate: NamedNodeBuf, object: Term) -> (r: Triple)
        ensures
            r == (Triple { subject, predicate, object }),
    {
        Triple { subject, predicate, object }
    }
}

/// The mathematical image of a triple.
pub struct TripleV {
    /// The subject.
    pub subject: NamedOrBlankNodeV,
    /// The predicate IRI.
    pub predicate: Seq<char>,
    /// The object.
    pub object: TermV,
}

impl View for Triple {
    type V = TripleV;

    open spec fn view(&self) -> TripleV {
        TripleV { subject: self.subject@, predicate: self.predicate.iri@, object: self.object@ }
    }
}

/// The two implicit datatype IRIs are distinct strings.
pub proof fn lemma_distinct_implicit_datatypes()
    ensures
        xsd_string_iri() != rdf_lang_string_iri(),
{
    reveal_strlit("http://www.w3.org/2001/XMLSchema#string");
    reveal_strlit("http://www.w3.org/1999/02/22-rdf-syntax-ns#langString");
    assert(xsd_string_iri().len() == 39);
    assert(rdf_lang_string_iri().len() == 53);
}

/// The image of an optional graph name; `None` is the default graph.
pub open spec fn graph_view(g: Option<&NamedOrBlankNode>) -> Option<NamedOrBlankNodeV> {
    match g {
        Option::None => Option::None,
        Option::Some(t) => Option::Some(t@),
    }
}

/// The images of a sequence of triples.
pub open spec fn triples_view(ts: Seq<Triple>) -> Seq<TripleV> {
    ts.map_values(|t: Triple| t@)
}

/// The images of a sequence of quads.
pub open spec fn quads_view(qs: Seq<Quad>) -> Seq<QuadV> {
    qs.map_values(|q: Quad| q@)
}

} // verus!
