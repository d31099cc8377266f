//! Error type of the ingestion pipeline.
use vstd::prelude::*;

verus! {

/// `std::io::Error`, an I/O failure reported by the operating system. The
/// library only carries such a value from the code that read a file to the
/// code that reports it, and looks at nothing inside it.
#[verifier::external_type_specification]
#[verifier::external_body]
pub struct ExIoError(std::io::Error);

/// Everything that can go wrong while ingesting documents.
#[derive(Debug)]
pub enum IngestionError {
    /// A source file could not be read.
    FileRead(std::io::Error),
    /// No parser is registered for the file's extension.
    UnsupportedFileType(String),
    /// The content of a recognised format is malformed.
    ParseFailure(String),
    /// The root of a directory traversal does not exist.
    DirectoryNotFound(String),
    /// The chunking configuration violates `chunk_overlap < chunk_size`.
    InvalidConfig(String),
}

} // verus!
