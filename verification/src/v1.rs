//! The snippet-retrieval API surface: the request and response shapes of
//! the generate path and its transport-level error taxonomy. The HTTP
//! transport itself lives in the frontend, which mirrors these shapes with
//! its serialization derives.

use vstd::prelude::*;

verus! {

/// A generate request: the language tag, the description to match, and how
/// many snippets to return (one when absent).
pub struct SnippetRequest {
    pub lang: String,
    pub desc: String,
    pub top_k: Option<usize>,
}

/// One stored snippet: its language tag, its description, and the body
/// returned verbatim on a match.
pub struct Snippet {
    pub lang: String,
    pub desc: String,
    pub body: String,
}

/// A stored snippet together with its index identifier.
pub struct SnippetResponse {
    pub id: usize,
    pub snippet: Snippet,
}

/// Transport-level request errors of the generate path.
#[derive(Clone, Copy, PartialEq, Eq, Structural, Debug)]
pub enum Error {
    /// The shared state's lock could not be taken for this request.
    Busy,
    /// The embedding collaborator failed on the prompt.
    EmbedFailed,
    /// The request named a language with no index.
    UnknownLang,
}

impl Error {
    /// The HTTP status code this error is answered with.
    pub fn status_code(&self) -> (r: u16)
        ensures
            *self is EmbedFailed ==> r == 500,
            *self is UnknownLang ==> r == 400,
            *self is Busy ==> r == 504,
    {
        match self {
            Error::EmbedFailed => 500,
            Error::UnknownLang => 400,
            Error::Busy => 504,
        }
    }

    /// The message the error is reported with.
    pub fn message(&self) -> (r: String)
        ensures
            *self is Busy ==> r@ == "the server is busy. come back later."@,
            *self is EmbedFailed ==> r@ == "failed to embed your prompt."@,
            *self is UnknownLang ==> r@ == "snippets were requested for an unknown language"@,
    {
        match self {
            Error::Busy => String::from_str("the server is busy. come back later."),
            Error::EmbedFailed => String::from_str("failed to embed your prompt."),
            Error::UnknownLang => String::from_str(
                "snippets were requested for an unknown language",
            ),
        }
    }
}

} // verus!
