//! The trusted boundary to the parser/query collaborator (tree-sitter).
//! Parsing, query evaluation and tree rendering are deterministic in the
//! grammar, the source bytes and the expression; their results are named
//! here and every verified contract above speaks through these names.

use vstd::prelude::*;

use crate::state::Lang;
use tree_sitter::StreamingIterator;

verus! {

#[verifier::external_type_specification]
#[verifier::external_body]
pub struct ExLanguage(tree_sitter::Language);

#[verifier::external_type_specification]
#[verifier::external_body]
pub struct ExTree(tree_sitter::Tree);

/// Whether the parser collaborator yields a tree for `source` under the
/// grammar of `lang`.
pub uninterp spec fn ts_parses(lang: Lang, source: Seq<u8>) -> bool;

/// The named captures of the first match, in match order, of the query
/// `expr` run over the tree of `source` under the grammar of `lang`: each
/// capture is its name and the byte span of its node. No value when the
/// expression does not compile under the grammar; an empty sequence when it
/// compiles but nothing matches.
pub uninterp spec fn ts_first_match(lang: Lang, source: Seq<u8>, expr: Seq<char>) -> Option<
    Seq<(Seq<char>, usize, usize)>,
>;

/// The s-expression rendering of the tree of `source` under the grammar of
/// `lang`.
pub uninterp spec fn ts_sexp(lang: Lang, source: Seq<u8>) -> Seq<char>;

/// One source buffer together with its parse tree and grammar handle. Built
/// only by [`parse_source`], so the tree is always the parse of `source`
/// under the grammar of `lang`.
pub struct ParsedSource {
    lang: Lang,
    grammar: tree_sitter::Language,
    tree: tree_sitter::Tree,
    source: Vec<u8>,
}

impl ParsedSource {
    /// The language the source was parsed under.
    pub closed spec fn lang(self) -> Lang {
        self.lang
    }

    /// The parsed source bytes.
    pub closed spec fn src(self) -> Seq<u8> {
        self.source@
    }

    pub fn language(&self) -> (r: Lang)
        ensures
            r == self.lang(),
    {
        self.lang
    }

    pub fn source_bytes(&self) -> (r: &Vec<u8>)
        ensures
            r@ == self.src(),
    {
        &self.source
    }
}

/// Relies on tree_sitter's `Parser::parse` under the grammar constant of the
/// language's crate: whether a tree comes back, and which, depends on the
/// grammar and the source bytes alone.
#[verifier::external_body]
pub fn parse_source(lang: Lang, body: &[u8]) -> (r: Option<ParsedSource>)
    ensures
        r is Some <==> ts_parses(lang, body@),
        r matches Some(p) ==> p.lang() == lang && p.src() == body@,
{
    let grammar: tree_sitter::Language = match lang {
        Lang::Go => tree_sitter_go::LANGUAGE.into(),
        Lang::C => tree_sitter_c::LANGUAGE.into(),
        Lang::Cpp => tree_sitter_cpp::LANGUAGE.into(),
        Lang::Js => tree_sitter_javascript::LANGUAGE.into(),
        Lang::Rust => tree_sitter_rust::LANGUAGE.into(),
    };
    let mut parser = tree_sitter::Parser::new();
    parser.set_language(&grammar).ok()?;
    let tree = parser.parse(body, None)?;
    Some(ParsedSource { lang, grammar, tree, source: body.to_vec() })
}

/// Relies on tree_sitter's `Query::new` and `QueryCursor::matches`: the
/// first match's captures are determined by grammar, source and expression;
/// every capture's node spans a byte range inside the parsed source.
#[verifier::external_body]
pub fn first_match_captures(p: &ParsedSource, expr: &str) -> (r: Option<
    Vec<(String, usize, usize)>,
>)
    ensures
        r is Some <==> ts_first_match(p.lang(), p.src(), expr@) is Some,
        r matches Some(v) ==> Some(v.deep_view()) == ts_first_match(p.lang(), p.src(), expr@),
        r matches Some(v) ==> forall|k: int|
            0 <= k < v@.len() ==> (#[trigger] v@[k]).1 <= v@[k].2 <= p.src().len(),
{
    let query = tree_sitter::Query::new(&p.grammar, expr).ok()?;
    let names = query.capture_names();
    let mut cursor = tree_sitter::QueryCursor::new();
    let mut matches = cursor.matches(&query, p.tree.root_node(), p.source.as_slice());
    let mut caps: Vec<(String, usize, usize)> = Vec::new();
    if let Some(m) = matches.next() {
        for cap in m.captures() {
            if let Some(name) = names.get(cap.index as usize) {
                caps.push((name.to_string(), cap.node.start_byte(), cap.node.end_byte()));
            }
        }
    }
    Some(caps)
}

/// Relies on tree_sitter's `Node::to_sexp` on the root node: the rendering
/// is determined by the tree, hence by the grammar and the source bytes.
#[verifier::external_body]
pub fn tree_sexp(p: &ParsedSource) -> (r: String)
    ensures
        r@ == ts_sexp(p.lang(), p.src()),
{
    p.tree.root_node().to_sexp()
}

} // verus!
