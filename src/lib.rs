//! Extraction of named PHP declarations ("concepts") from a syntax tree.
//!
//! A parsed file is handed over as a [`syntax::SyntaxTree`]; for each node,
//! [`extractor::PhpExtractor::extract_concepts`] appends the concepts that the
//! node declares, with their attributes and documentation-comment details.
pub mod concept;
pub mod docblock;
pub mod extractor;
pub mod harvest;
pub mod laws;
pub mod syntax;
pub mod text;
pub mod traits;

pub use concept::{LineRange, Metadata, ParseError, SemanticConcept};
pub use docblock::{parse_docblock, DocblockInfo};
pub use extractor::PhpExtractor;
pub use syntax::{SyntaxNode, SyntaxTree};
