//! Command-line facing data types. The frontend parses the actual command
//! line; these are the plain shapes it hands to the library.

use vstd::prelude::*;

verus! {

/// Arguments of the tree-dump debug command: a path to a source file.
pub struct DumpExpression {
    pub path: String,
}

/// Arguments of the capture-display debug command: a path to a source file
/// and a structural query expression to run against it.
pub struct ShowCaptures {
    pub path: String,
    pub expression: String,
}

/// Syntax-tree debug subcommands.
pub enum Ast {
    DumpExpression(DumpExpression),
    ShowCaptures(ShowCaptures),
}

/// Language-server configuration: which device to run the embedding model
/// on, which model and revision to load, and where the rule corpus lives.
pub struct Lsp {
    pub gpu: Option<usize>,
    pub model_id: Option<String>,
    pub revision: Option<String>,
    pub snippets: String,
}

/// Top-level commands.
pub enum Command {
    Ast(Ast),
    Lsp(Lsp),
}

impl Lsp {
    /// Chooses the embedding model and revision: explicit settings win; an
    /// explicit model without a revision uses its "main" revision; with no
    /// explicit model the default model and its pinned revision are used.
    pub fn resolve_model_and_revision(&self) -> (r: (String, String))
        ensures
            match (self.model_id, self.revision) {
                (Some(m), Some(v)) => r.0@ == m@ && r.1@ == v@,
                (Some(m), None) => r.0@ == m@ && r.1@ == "main"@,
                (None, Some(v)) => r.0@ == "sentence-transformers/all-MiniLM-L6-v2"@ && r.1@ == v@,
                (None, None) => r.0@ == "sentence-transformers/all-MiniLM-L6-v2"@ && r.1@
                    == "refs/pr/21"@,
            },
    {
        match (&self.model_id, &self.revision) {
            (Some(model_id), Some(revision)) => (model_id.clone(), revision.clone()),
            (Some(model_id), None) => (model_id.clone(), String::from_str("main")),
            (None, Some(revision)) => (
                String::from_str("sentence-transformers/all-MiniLM-L6-v2"),
                revision.clone(),
            ),
            (None, None) => (
                String::from_str("sentence-transformers/all-MiniLM-L6-v2"),
                String::from_str("refs/pr/21"),
            ),
        }
    }
}

} // verus!
