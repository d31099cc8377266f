//! Interfaces of the ingestion pipeline.
use crate::error::IngestionError;
use crate::ingestor::SourceFile;
use crate::types::{ChunkConfig, DocumentChunk, ParsedDocument};
use vstd::prelude::*;

verus! {

/// A parser that turns the text of a document file into a parsed document.
pub trait DocumentParserLocal {
    /// Parses the text of a file. A document that comes out is well formed:
    /// its headings stand in the order of their offsets, each at a character
    /// boundary of the text, where its own text stands.
    fn parse(&self, source: &str) -> (result: Result<ParsedDocument, IngestionError>)
        ensures
            result matches Ok(document) ==> document@.is_well_formed(),
    ;

    /// The file extensions that this parser is meant for, without the dot.
    fn supported_extensions(&self) -> &[&str];
}

/// A chunker that splits parsed documents into chunks.
pub trait TextChunker {
    /// Splits a parsed document into chunks. The configuration is checked
    /// first: the call succeeds exactly when the overlap is smaller than the
    /// chunk size.
    fn chunk(&self, document: &ParsedDocument, source_file: &str, config: &ChunkConfig) -> (result:
        Result<Vec<DocumentChunk>, IngestionError>)
        ensures
            result is Ok <==> config.is_valid(),
    ;
}

/// An ingestor that takes files from their texts to their chunks.
pub trait Ingestor {
    /// Ingests the supported files among those of a directory, which are
    /// given with their texts in the order in which they were met.
    fn ingest_directory(&self, files: &Vec<SourceFile>) -> Result<
        Vec<DocumentChunk>,
        IngestionError,
    >;

    /// Ingests a single file, given its path and its text.
    fn ingest_file(&self, path: &str, text: &str) -> Result<Vec<DocumentChunk>, IngestionError>;
}

} // verus!
