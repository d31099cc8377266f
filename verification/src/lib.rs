//! Document ingestion for a retrieval knowledge base: markdown is flattened
//! into plain text with heading metadata, and the text is cut into overlapping,
//! boundary-aware chunks.
//!
//! The library is verified with Verus. Its contracts speak of a text as the
//! sequence of its characters and, where offsets matter, as its UTF-8 bytes.
//!
//! - [`markdown`] turns markdown into a [`ParsedDocument`]; what holds of
//!   every such document is proved in [`markdown_laws`].
//! - [`heading_index`] answers which heading path is active at an offset.
//! - [`boundary`] finds the best place to cut a text near a target offset:
//!   at a paragraph, else at a sentence, else at a word, else anywhere.
//! - [`chunker`] slides a window over a document and cuts it into
//!   [`DocumentChunk`]s; that the chunks cover the text, overlap within
//!   bounds and never split a character is proved in [`chunk_laws`].
//! - [`ingestor`] takes files, given by path and text, to their chunks.
//!
//! The library reads no files and no environment; its callers do.
pub mod boundary;
pub mod chunk_laws;
pub mod chunker;
pub mod error;
pub mod heading_index;
pub mod ingestor;
pub mod markdown;
pub mod markdown_laws;
pub mod text;
pub mod traits;
pub mod types;

pub use chunker::SemanticChunker;
pub use error::IngestionError;
pub use ingestor::MarkdownIngestor;
pub use markdown::MarkdownParser;
pub use traits::{DocumentParserLocal, Ingestor, TextChunker};
pub use types::{ChunkConfig, DocumentChunk, HeadingInfo, ParsedDocument};
