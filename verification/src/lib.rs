//! Core of a code-assist service: a declarative structural-mutation engine
//! over parsed syntax trees, a rule compiler for the on-disk rule format,
//! a closed language registry, and the retrieval state that serves
//! "generate" and "refactor" requests from per-language indexes.
//!
//! Embedding vectors and the approximate-nearest-neighbor search structure
//! are external collaborators: callers embed a prompt, search the index for
//! candidate identifiers, and hand those identifiers back to this library.

pub mod args;
pub mod lsp;
pub mod mutation;
pub mod rules;
pub mod state;
pub mod text;
pub mod ts;
pub mod v1;
pub mod v2;
