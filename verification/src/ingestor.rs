//! From the texts of files to their chunks.
//!
//! Reading files and walking directories is left to the caller, who hands
//! over each file's path and text. Here a file is recognised by its
//! extension, parsed, and cut into chunks; the chunks of several files are
//! put together in the order of the files.
use crate::chunker::{
    assemble_spec, chunks_view, invalid_config, invalid_config_message, SemanticChunker,
};
use crate::error::IngestionError;
use crate::markdown::{document_of, parsed_markdown, MarkdownParser};
use crate::text::text_bytes;
use crate::traits::{DocumentParserLocal, Ingestor, TextChunker};
use crate::types::{ChunkConfig, DocumentChunk, DocumentChunkView};
use vstd::prelude::*;
use vstd::string::*;
use vstd::utf8::*;

verus! {

/// A file that has been read: its path and its text.
#[derive(Debug, Clone)]
pub struct SourceFile {
    pub path: String,
    pub text: String,
}

/// Mathematical content of a [`SourceFile`].
pub ghost struct SourceFileView {
    pub path: Seq<char>,
    pub text: Seq<char>,
}

impl View for SourceFile {
    type V = SourceFileView;

    open spec fn view(&self) -> SourceFileView {
        SourceFileView { path: self.path@, text: self.text@ }
    }
}

/// The views of a list of files, in the same order.
pub open spec fn files_view(files: Seq<SourceFile>) -> Seq<SourceFileView> {
    Seq::new(files.len(), |i: int| files[i]@)
}

/// Whether `bytes` ends with `suffix`.
pub open spec fn has_suffix(bytes: Seq<u8>, suffix: Seq<u8>) -> bool {
    suffix.len() <= bytes.len() && bytes.subrange(bytes.len() - suffix.len(), bytes.len() as int)
        == suffix
}

/// Whether a path ends with a dot and the given extension; the comparison is
/// made on the UTF-8 bytes.
pub open spec fn has_extension(path: Seq<char>, extension: Seq<char>) -> bool {
    has_suffix(text_bytes(path), seq![0x2e_u8] + text_bytes(extension))
}

/// Whether a path has one of the given extensions.
pub open spec fn has_any_extension(path: Seq<char>, extensions: Seq<&str>) -> bool {
    exists|i: int| 0 <= i < extensions.len() && has_extension(path, (#[trigger] extensions[i])@)
}

/// Whether a path has an extension of markdown files, `md` or `markdown`.
pub open spec fn is_markdown_path(path: Seq<char>) -> bool {
    has_extension(path, "md"@) || has_extension(path, "markdown"@)
}

/// The chunks of one markdown file.
pub open spec fn file_chunks(file: SourceFileView, chunk_size: int, chunk_overlap: int) -> Seq<
    DocumentChunkView,
> {
    assemble_spec(document_of(parsed_markdown(file.text)), file.path, chunk_size, chunk_overlap)
}

/// The chunks of the markdown files among `files`, file after file.
pub open spec fn directory_chunks(
    files: Seq<SourceFileView>,
    chunk_size: int,
    chunk_overlap: int,
) -> Seq<DocumentChunkView>
    decreases files.len(),
{
    if files.len() == 0 {
        Seq::empty()
    } else if is_markdown_path(files.last().path) {
        directory_chunks(files.drop_last(), chunk_size, chunk_overlap) + file_chunks(
            files.last(),
            chunk_size,
            chunk_overlap,
        )
    } else {
        directory_chunks(files.drop_last(), chunk_size, chunk_overlap)
    }
}

/// Whether `path` ends with a dot and `extension`.
pub fn path_has_extension(path: &str, extension: &str) -> (r: bool)
    ensures
        r == has_extension(path@, extension@),
{
    let bytes = path.as_bytes();
    let wanted = extension.as_bytes();
    let ghost suffix = seq![0x2e_u8] + wanted@;
    if bytes.len() <= wanted.len() {
        return false;
    }
    let offset = bytes.len() - wanted.len();
    let ghost tail = bytes@.subrange(offset - 1, bytes@.len() as int);
    if bytes[offset - 1] != 0x2e {
        assert(tail[0] != suffix[0]);
        return false;
    }
    let mut i: usize = 0;
    while i < wanted.len()
        invariant
            offset == bytes.len() - wanted.len(),
            1 <= offset,
            i <= wanted.len(),
            bytes@ == text_bytes(path@),
            wanted@ == text_bytes(extension@),
            suffix == seq![0x2e_u8] + wanted@,
            tail == bytes@.subrange(offset - 1, bytes@.len() as int),
            forall|j: int| 0 <= j < i ==> bytes[offset + j] == wanted[j],
        decreases wanted.len() - i,
    {
        if bytes[offset + i] != wanted[i] {
            assert(tail[i + 1] != suffix[i + 1]);
            return false;
        }
        i = i + 1;
    }
    assert(tail =~= suffix);
    true
}

/// Whether `path` has one of the given extensions.
pub fn path_has_any_extension(path: &str, extensions: &[&str]) -> (r: bool)
    ensures
        r == has_any_extension(path@, extensions@),
{
    let mut i: usize = 0;
    while i < extensions.len()
        invariant
            i <= extensions.len(),
            forall|j: int| 0 <= j < i ==> !has_extension(path@, (#[trigger] extensions@[j])@),
        decreases extensions.len() - i,
    {
        if path_has_extension(path, extensions[i]) {
            return true;
        }
        i = i + 1;
    }
    false
}

/// Ingestor for markdown documents.
pub struct MarkdownIngestor {
    parser: MarkdownParser,
    chunker: SemanticChunker,
    config: ChunkConfig,
}

impl MarkdownIngestor {
    /// The configuration that the ingestor chunks with.
    pub closed spec fn config(&self) -> ChunkConfig {
        self.config
    }

    /// An ingestor that chunks with the given configuration. The
    /// configuration is checked when a file is chunked, not here.
    pub fn new(config: ChunkConfig) -> (ingestor: Self)
        ensures
            ingestor.config() == config,
    {
        MarkdownIngestor { parser: MarkdownParser::new(), chunker: SemanticChunker::new(), config }
    }

    /// Whether the ingestor takes a file of this path: whether the path has
    /// an extension of markdown files.
    pub fn accepts(&self, path: &str) -> (r: bool)
        ensures
            r == is_markdown_path(path@),
    {
        let extensions = self.parser.supported_extensions();
        assert(is_markdown_path(path@) == has_any_extension(path@, extensions@)) by {
            if has_any_extension(path@, extensions@) {
                let i = choose|i: int|
                    0 <= i < extensions@.len() && has_extension(path@, (#[trigger] extensions@[i])@);
            }
            if has_extension(path@, "md"@) {
                assert(has_extension(path@, extensions@[0]@));
            }
            if has_extension(path@, "markdown"@) {
                assert(has_extension(path@, extensions@[1]@));
            }
        }
        path_has_any_extension(path, extensions)
    }
}

impl Ingestor for MarkdownIngestor {
    /// Chunks the markdown files among `files`, in the order given; files
    /// with another extension are passed over. The configuration is checked
    /// before any file is looked at.
    fn ingest_directory(&self, files: &Vec<SourceFile>) -> (result: Result<
        Vec<DocumentChunk>,
        IngestionError,
    >)
        ensures
            result is Ok <==> self.config().is_valid(),
            result matches Ok(chunks) ==> chunks_view(chunks@) == directory_chunks(
                files_view(files@),
                self.config().chunk_size as int,
                self.config().chunk_overlap as int,
            ),
            result matches Err(e) ==> e matches IngestionError::InvalidConfig(message) && message@
                == invalid_config_message(),
    {
        if self.config.chunk_overlap >= self.config.chunk_size {
            return Err(invalid_config());
        }
        let ghost views = files_view(files@);
        let ghost size = self.config.chunk_size as int;
        let ghost overlap = self.config.chunk_overlap as int;
        let mut all: Vec<DocumentChunk> = Vec::new();
        let mut i: usize = 0;
        while i < files.len()
            invariant
                views == files_view(files@),
                size == self.config().chunk_size,
                overlap == self.config().chunk_overlap,
                self.config().is_valid(),
                i <= files.len(),
                chunks_view(all@) == directory_chunks(views.take(i as int), size, overlap),
            decreases files.len() - i,
        {
            let file = &files[i];
            assert(views.take(i + 1).drop_last() =~= views.take(i as int));
            if self.accepts(file.path.as_str()) {
                let ghost before = all@;
                match self.ingest_file(file.path.as_str(), file.text.as_str()) {
                    Ok(mut chunks) => {
                        let ghost added = chunks@;
                        all.append(&mut chunks);
                        assert(chunks_view(all@) =~= chunks_view(before) + chunks_view(added));
                    },
                    Err(e) => {
                        return Err(e);
                    },
                }
            }
            i = i + 1;
        }
        assert(views.take(files.len() as int) =~= views);
        Ok(all)
    }

    /// Chunks one file, given its path and its text. A path without an
    /// extension of markdown files is refused; then the configuration is
    /// checked, the text parsed as markdown, and the document chunked under
    /// the path as the name of its source.
    fn ingest_file(&self, path: &str, text: &str) -> (result: Result<
        Vec<DocumentChunk>,
        IngestionError,
    >)
        ensures
            result is Ok <==> is_markdown_path(path@) && self.config().is_valid(),
            result matches Ok(chunks) ==> chunks_view(chunks@) == file_chunks(
                SourceFileView { path: path@, text: text@ },
                self.config().chunk_size as int,
                self.config().chunk_overlap as int,
            ),
            result matches Err(e) ==> if is_markdown_path(path@) {
                e matches IngestionError::InvalidConfig(message) && message@
                    == invalid_config_message()
            } else {
                e matches IngestionError::UnsupportedFileType(refused) && refused@ == path@
            },
    {
        if !self.accepts(path) {
            return Err(IngestionError::UnsupportedFileType(path.to_owned()));
        }
        let document = match self.parser.parse(text) {
            Ok(document) => document,
            Err(e) => {
                return Err(e);
            },
        };
        self.chunker.chunk(&document, path, &self.config)
    }
}

} // verus!
