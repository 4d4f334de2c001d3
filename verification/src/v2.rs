//! The refactor API surface: the request and response shapes of the
//! refactor path. The HTTP transport lives in the frontend, which mirrors
//! these shapes with its serialization derives.

use vstd::prelude::*;

verus! {

/// A refactor request: the description to match, the source body to
/// rewrite, the language tag, and how many candidates to try (one when
/// absent).
pub struct SnippetRequest {
    pub desc: String,
    pub body: String,
    pub lang: String,
    pub top_k: Option<usize>,
}

/// One stored snippet: its language tag, its description, and its body.
pub struct Snippet {
    pub lang: String,
    pub desc: String,
    pub body: String,
}

/// A stored snippet together with its index identifier.
pub struct SnippetResponse {
    pub id: usize,
    pub snippet: Snippet,
}

} // verus!
