//! Indexes a Rust repository into a graph of code elements, resolves the
//! references between them, and prepares what documentation and question
//! answering hand to a language model.

pub mod doc_gen;
pub mod imports;
pub mod models;
pub mod openai;
pub mod parsing;
pub mod resolve;
pub mod store;
pub mod syntax;
pub mod text;

pub use models::{CodeElement, CodeElementID, CodeFile, DocumentedCodeElement, ItemKind, UserQuestionResponse};
