//! The rule compiler: rule documents arrive as text in the kdl format, are
//! parsed by the kdl collaborator into a plain node shape, and are compiled
//! into an ordered [`MutationCollection`]. Document order of `mutation`
//! nodes is preserved; a document violating the rule schema is a malformed
//! rule, never a panic.

use vstd::prelude::*;

use crate::mutation::Mutation;
use crate::mutation::MutationCollection;
use crate::mutation::Substitute;
use crate::text::str_eq;

verus! {

/// The compiler's error: the document does not fit the rule schema.
#[derive(Clone, Copy, PartialEq, Eq, Structural, Debug)]
pub enum RuleError {
    MalformedRule,
}

/// One node of a rule document as the library reads it: its tag name, its
/// first string argument if it has one, and its child nodes if it has a
/// children block.
pub struct RuleNode {
    pub name: String,
    pub arg: Option<String>,
    pub children: Option<Vec<RuleNode>>,
}

/// A rule document: the ordered top-level nodes.
pub struct RuleDoc {
    pub nodes: Vec<RuleNode>,
}

#[verifier::external_type_specification]
#[verifier::external_body]
pub struct ExKdlNode(kdl::KdlNode);

/// The rule document that a kdl text parses to, when it parses: kdl parsing
/// is deterministic in the text.
pub uninterp spec fn kdl_doc(text: Seq<char>) -> Option<RuleDoc>;

/// Relies on kdl's document parsing (`str::parse::<KdlDocument>`): whether
/// the text parses, and to which document, depends on the text alone.
#[verifier::external_body]
pub fn parse_rule_doc(text: &str) -> (r: Option<RuleDoc>)
    ensures
        r == kdl_doc(text@),
{
    let doc: kdl::KdlDocument = text.parse().ok()?;
    Some(RuleDoc { nodes: convert_nodes(doc.nodes()) })
}

/// Relies on kdl's node accessors (`name`, `entry`, `as_string`,
/// `children`): moves each node's tag, first string argument and children
/// into the library's rule-node shape.
#[verifier::external_body]
fn convert_nodes(ns: &[kdl::KdlNode]) -> Vec<RuleNode> {
    ns.iter().map(
        |n| RuleNode {
            name: n.name().value().to_string(),
            arg: n.entry(0).and_then(|e| e.value().as_string()).map(|s| s.to_string()),
            children: n.children().map(|d| convert_nodes(d.nodes())),
        },
    ).collect()
}

/// Spec-level shape of a substitution.
pub ghost enum SubstituteV {
    Literal(Seq<char>),
    Capture(Seq<char>),
}

/// Spec-level shape of a mutation.
pub ghost struct MutationV {
    pub expression: Seq<char>,
    pub substitute: Seq<SubstituteV>,
}

/// Spec-level shape of a mutation collection.
pub ghost struct CollectionV {
    pub description: Seq<char>,
    pub mutations: Seq<MutationV>,
}

impl View for Substitute {
    type V = SubstituteV;

    open spec fn view(&self) -> SubstituteV {
        match self {
            Substitute::Literal(s) => SubstituteV::Literal(s@),
            Substitute::Capture(s) => SubstituteV::Capture(s@),
        }
    }
}

impl DeepView for Substitute {
    type V = SubstituteV;

    open spec fn deep_view(&self) -> SubstituteV {
        self.view()
    }
}

impl View for Mutation {
    type V = MutationV;

    open spec fn view(&self) -> MutationV {
        MutationV { expression: self.expression@, substitute: self.substitute.deep_view() }
    }
}

impl DeepView for Mutation {
    type V = MutationV;

    open spec fn deep_view(&self) -> MutationV {
        self.view()
    }
}

impl View for MutationCollection {
    type V = CollectionV;

    open spec fn view(&self) -> CollectionV {
        CollectionV { description: self.description@, mutations: self.mutations.deep_view() }
    }
}

/// The first child node with the given tag name, in document order.
pub open spec fn first_child(ns: Seq<RuleNode>, name: Seq<char>) -> Option<RuleNode>
    decreases ns.len(),
{
    if ns.len() == 0 {
        None
    } else if ns.first().name@ == name {
        Some(ns.first())
    } else {
        first_child(ns.drop_first(), name)
    }
}

/// The first string argument of the first child node with the given tag
/// name, when both exist.
pub open spec fn arg_of(ns: Seq<RuleNode>, name: Seq<char>) -> Option<Seq<char>> {
    match first_child(ns, name) {
        None => None,
        Some(n) => match n.arg {
            None => None,
            Some(a) => Some(a@),
        },
    }
}

/// The substitutions compiled from the children of a `substitute` node, in
/// document order: each child must be tagged `literal` or `capture` and
/// carry a string argument.
pub open spec fn subs_of(children: Seq<RuleNode>) -> Result<Seq<SubstituteV>, RuleError>
    decreases children.len(),
{
    if children.len() == 0 {
        Ok(Seq::empty())
    } else {
        match subs_of(children.drop_last()) {
            Err(e) => Err(e),
            Ok(acc) => {
                let c = children.last();
                match c.arg {
                    None => Err(RuleError::MalformedRule),
                    Some(a) => if c.name@ == "literal"@ {
                        Ok(acc.push(SubstituteV::Literal(a@)))
                    } else if c.name@ == "capture"@ {
                        Ok(acc.push(SubstituteV::Capture(a@)))
                    } else {
                        Err(RuleError::MalformedRule)
                    },
                }
            },
        }
    }
}

/// The mutation compiled from one `mutation` node: the node must have a
/// children block holding an `expression` child with a string argument and
/// a `substitute` child with a children block of substitutions.
pub open spec fn mutation_of(nd: RuleNode) -> Result<MutationV, RuleError> {
    match nd.children {
        None => Err(RuleError::MalformedRule),
        Some(ch) => match arg_of(ch@, "expression"@) {
            None => Err(RuleError::MalformedRule),
            Some(ex) => match first_child(ch@, "substitute"@) {
                None => Err(RuleError::MalformedRule),
                Some(sb) => match sb.children {
                    None => Err(RuleError::MalformedRule),
                    Some(sc) => match subs_of(sc@) {
                        Err(e) => Err(e),
                        Ok(subs) => Ok(MutationV { expression: ex, substitute: subs }),
                    },
                },
            },
        },
    }
}

/// Walks the top-level nodes in document order: every node must be a
/// `description` (with a string argument; the last one seen wins) or a
/// `mutation`; the mutations keep their document order.
pub open spec fn walk_nodes(ns: Seq<RuleNode>) -> Result<
    (Option<Seq<char>>, Seq<MutationV>),
    RuleError,
>
    decreases ns.len(),
{
    if ns.len() == 0 {
        Ok((None, Seq::empty()))
    } else {
        match walk_nodes(ns.drop_last()) {
            Err(e) => Err(e),
            Ok(acc) => {
                let nd = ns.last();
                if nd.name@ == "description"@ {
                    match nd.arg {
                        None => Err(RuleError::MalformedRule),
                        Some(a) => Ok((Some(a@), acc.1)),
                    }
                } else if nd.name@ == "mutation"@ {
                    match mutation_of(nd) {
                        Err(e) => Err(e),
                        Ok(m) => Ok((acc.0, acc.1.push(m))),
                    }
                } else {
                    Err(RuleError::MalformedRule)
                }
            },
        }
    }
}

/// What compiling a rule document yields: its description and its ordered
/// mutations, or a malformed-rule error exactly when a top-level node is
/// neither `description` nor `mutation`, a `mutation` node lacks an
/// `expression` or `substitute` child, a substitution is tagged neither
/// `literal` nor `capture`, a schema-required string argument is missing,
/// or no `description` node is present at all.
pub open spec fn compile_spec(doc: RuleDoc) -> Result<CollectionV, RuleError> {
    match walk_nodes(doc.nodes@) {
        Err(e) => Err(e),
        Ok(acc) => match acc.0 {
            None => Err(RuleError::MalformedRule),
            Some(d) => Ok(CollectionV { description: d, mutations: acc.1 }),
        },
    }
}

/// The `desc` and `body` arguments of a generate rule document, when both
/// are present.
pub open spec fn snippet_of(doc: RuleDoc) -> Option<(Seq<char>, Seq<char>)> {
    match (arg_of(doc.nodes@, "desc"@), arg_of(doc.nodes@, "body"@)) {
        (Some(d), Some(b)) => Some((d, b)),
        _ => None,
    }
}

/// The first child node with the given tag name, in document order.
fn find_child<'a>(ns: &'a Vec<RuleNode>, name: &str) -> (r: Option<&'a RuleNode>)
    ensures
        match r {
            Some(n) => first_child(ns@, name@) == Some(*n),
            None => first_child(ns@, name@) is None,
        },
{
    let n = ns.len();
    let mut i: usize = 0;
    proof {
        assert(ns@.skip(0) =~= ns@);
    }
    while i < n
        invariant
            n == ns@.len(),
            i <= n,
            first_child(ns@, name@) == first_child(ns@.skip(i as int), name@),
        decreases n - i,
    {
        proof {
            assert(ns@.skip(i as int).first() == ns@[i as int]);
            assert(ns@.skip(i as int).drop_first() =~= ns@.skip(i + 1));
        }
        let nd = &ns[i];
        if str_eq(nd.name.as_str(), name) {
            return Some(nd);
        }
        i += 1;
    }
    proof {
        assert(ns@.skip(n as int) =~= Seq::<RuleNode>::empty());
    }
    None
}

proof fn lemma_subs_err(children: Seq<RuleNode>, i: int)
    requires
        0 <= i <= children.len(),
        subs_of(children.take(i)) is Err,
    ensures
        subs_of(children) == subs_of(children.take(i)),
    decreases children.len() - i,
{
    if i == children.len() {
        assert(children.take(i) =~= children);
    } else {
        assert(children.take(i + 1).drop_last() =~= children.take(i));
        lemma_subs_err(children, i + 1);
    }
}

proof fn lemma_walk_err(ns: Seq<RuleNode>, i: int)
    requires
        0 <= i <= ns.len(),
        walk_nodes(ns.take(i)) is Err,
    ensures
        walk_nodes(ns) == walk_nodes(ns.take(i)),
    decreases ns.len() - i,
{
    if i == ns.len() {
        assert(ns.take(i) =~= ns);
    } else {
        assert(ns.take(i + 1).drop_last() =~= ns.take(i));
        lemma_walk_err(ns, i + 1);
    }
}

/// Compiles the substitution list of one `substitute` node.
fn compile_subs(children: &Vec<RuleNode>) -> (r: Result<Vec<Substitute>, RuleError>)
    ensures
        match r {
            Ok(subs) => subs_of(children@) == Ok::<_, RuleError>(subs.deep_view()),
            Err(e) => subs_of(children@) == Err::<Seq<SubstituteV>, RuleError>(e),
        },
{
    let n = children.len();
    let mut subs: Vec<Substitute> = Vec::new();
    let mut i: usize = 0;
    proof {
        assert(children@.take(0) =~= Seq::<RuleNode>::empty());
        assert(subs.deep_view() =~= Seq::<SubstituteV>::empty());
    }
    while i < n
        invariant
            n == children@.len(),
            i <= n,
            subs_of(children@.take(i as int)) == Ok::<_, RuleError>(subs.deep_view()),
        decreases n - i,
    {
        proof {
            assert(children@.take(i + 1).drop_last() =~= children@.take(i as int));
            assert(children@.take(i + 1).last() == children@[i as int]);
        }
        let c = &children[i];
        let a = match &c.arg {
            None => {
                proof {
                    lemma_subs_err(children@, i + 1);
                }
                return Err(RuleError::MalformedRule);
            },
            Some(a) => a,
        };
        let ghost old_dv = subs.deep_view();
        if str_eq(c.name.as_str(), "literal") {
            subs.push(Substitute::Literal(a.clone()));
        } else if str_eq(c.name.as_str(), "capture") {
            subs.push(Substitute::Capture(a.clone()));
        } else {
            proof {
                lemma_subs_err(children@, i + 1);
            }
            return Err(RuleError::MalformedRule);
        }
        proof {
            assert(subs.deep_view() =~= old_dv.push(subs@.last().deep_view()));
        }
        i += 1;
    }
    proof {
        assert(children@.take(n as int) =~= children@);
    }
    Ok(subs)
}

/// Compiles one `mutation` node, as [`mutation_of`] states.
fn compile_mutation(nd: &RuleNode) -> (r: Result<Mutation, RuleError>)
    ensures
        match r {
            Ok(m) => mutation_of(*nd) == Ok::<_, RuleError>(m.deep_view()),
            Err(e) => mutation_of(*nd) == Err::<MutationV, RuleError>(e),
        },
{
    let ch = match &nd.children {
        None => {
            return Err(RuleError::MalformedRule);
        },
        Some(ch) => ch,
    };
    let expression = match find_child(ch, "expression") {
        None => {
            return Err(RuleError::MalformedRule);
        },
        Some(e) => match &e.arg {
            None => {
                return Err(RuleError::MalformedRule);
            },
            Some(a) => a.clone(),
        },
    };
    let sb = match find_child(ch, "substitute") {
        None => {
            return Err(RuleError::MalformedRule);
        },
        Some(s) => s,
    };
    let sc = match &sb.children {
        None => {
            return Err(RuleError::MalformedRule);
        },
        Some(sc) => sc,
    };
    match compile_subs(sc) {
        Err(e) => Err(e),
        Ok(substitute) => Ok(Mutation { expression, substitute }),
    }
}

/// Compiles a rule document into a mutation collection, as [`compile_spec`]
/// states: the description is required, every `mutation` node becomes one
/// mutation in document order, and any schema violation is a malformed
/// rule.
pub fn compile(doc: &RuleDoc) -> (r: Result<MutationCollection, RuleError>)
    ensures
        match r {
            Ok(c) => compile_spec(*doc) matches Ok(v) && c@ == v,
            Err(e) => compile_spec(*doc) == Err::<CollectionV, RuleError>(e),
        },
{
    let n = doc.nodes.len();
    let mut description: Option<String> = None;
    let mut mutations: Vec<Mutation> = Vec::new();
    let mut i: usize = 0;
    proof {
        assert(doc.nodes@.take(0) =~= Seq::<RuleNode>::empty());
        assert(mutations.deep_view() =~= Seq::<MutationV>::empty());
    }
    while i < n
        invariant
            n == doc.nodes@.len(),
            i <= n,
            walk_nodes(doc.nodes@.take(i as int)) == Ok::<_, RuleError>(
                (
                    match description {
                        None => None::<Seq<char>>,
                        Some(d) => Some(d@),
                    },
                    mutations.deep_view(),
                ),
            ),
        decreases n - i,
    {
        proof {
            assert(doc.nodes@.take(i + 1).drop_last() =~= doc.nodes@.take(i as int));
            assert(doc.nodes@.take(i + 1).last() == doc.nodes@[i as int]);
        }
        let nd = &doc.nodes[i];
        if str_eq(nd.name.as_str(), "description") {
            match &nd.arg {
                None => {
                    proof {
                        lemma_walk_err(doc.nodes@, i + 1);
                    }
                    return Err(RuleError::MalformedRule);
                },
                Some(a) => {
                    description = Some(a.clone());
                },
            }
        } else if str_eq(nd.name.as_str(), "mutation") {
            match compile_mutation(nd) {
                Err(e) => {
                    proof {
                        lemma_walk_err(doc.nodes@, i + 1);
                    }
                    return Err(e);
                },
                Ok(m) => {
                    let ghost old_dv = mutations.deep_view();
                    mutations.push(m);
                    proof {
                        assert(mutations.deep_view() =~= old_dv.push(mutations@.last().deep_view()));
                    }
                },
            }
        } else {
            proof {
                lemma_walk_err(doc.nodes@, i + 1);
            }
            return Err(RuleError::MalformedRule);
        }
        i += 1;
    }
    proof {
        assert(doc.nodes@.take(n as int) =~= doc.nodes@);
    }
    match description {
        None => Err(RuleError::MalformedRule),
        Some(description) => Ok(MutationCollection { description, mutations }),
    }
}

/// Compiles a rule document from its on-disk text: text the kdl
/// collaborator cannot parse is a malformed rule; text that parses is
/// compiled as [`compile_spec`] states.
pub fn collection_from_str(text: &str) -> (r: Result<MutationCollection, RuleError>)
    ensures
        match kdl_doc(text@) {
            None => r == Err::<MutationCollection, RuleError>(RuleError::MalformedRule),
            Some(doc) => match r {
                Ok(c) => compile_spec(doc) matches Ok(v) && c@ == v,
                Err(e) => compile_spec(doc) == Err::<CollectionV, RuleError>(e),
            },
        },
{
    match parse_rule_doc(text) {
        None => Err(RuleError::MalformedRule),
        Some(doc) => compile(&doc),
    }
}

/// Reads the `desc` and `body` arguments of a generate rule document from
/// its on-disk text; text that does not parse, or a document missing either
/// argument, yields nothing and the file is skipped by the index builder.
pub fn snippet_from_str(text: &str) -> (r: Option<(String, String)>)
    ensures
        match kdl_doc(text@) {
            None => r is None,
            Some(doc) => match r {
                Some(p) => snippet_of(doc) == Some((p.0@, p.1@)),
                None => snippet_of(doc) is None,
            },
        },
{
    let doc = match parse_rule_doc(text) {
        None => {
            return None;
        },
        Some(doc) => doc,
    };
    let d = match find_child(&doc.nodes, "desc") {
        None => {
            return None;
        },
        Some(n) => match &n.arg {
            None => {
                return None;
            },
            Some(a) => a.clone(),
        },
    };
    let b = match find_child(&doc.nodes, "body") {
        None => {
            return None;
        },
        Some(n) => match &n.arg {
            None => {
                return None;
            },
            Some(a) => a.clone(),
        },
    };
    Some((d, b))
}

} // verus!
