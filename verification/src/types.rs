//! Core data types shared by the parser and the chunker.
use crate::text::{parse_decimal, parse_usize, text_bytes};
use vstd::prelude::*;
use vstd::utf8::*;

verus! {

/// A heading of a parsed document.
#[derive(Debug, Clone, PartialEq)]
pub struct HeadingInfo {
    /// Depth of the heading, from 1 to 6.
    pub level: u32,
    /// Plain text of the heading.
    pub text: String,
    /// Byte offset into the document's content at which the heading's text
    /// begins.
    pub char_offset: usize,
}

/// Mathematical content of a [`HeadingInfo`].
pub ghost struct HeadingView {
    pub level: u32,
    pub text: Seq<char>,
    pub char_offset: usize,
}

impl View for HeadingInfo {
    type V = HeadingView;

    open spec fn view(&self) -> HeadingView {
        HeadingView { level: self.level, text: self.text@, char_offset: self.char_offset }
    }
}

/// The views of a list of headings, in the same order.
pub open spec fn headings_view(headings: Seq<HeadingInfo>) -> Seq<HeadingView> {
    Seq::new(headings.len(), |i: int| headings[i]@)
}

/// A document flattened into readable text, with the headings met on the way
/// in document order.
#[derive(Debug, Clone)]
pub struct ParsedDocument {
    pub content: String,
    pub headings: Vec<HeadingInfo>,
}

/// Mathematical content of a [`ParsedDocument`].
pub ghost struct ParsedDocumentView {
    pub content: Seq<char>,
    pub headings: Seq<HeadingView>,
}

impl ParsedDocumentView {
    /// Whether the headings stand where the text says: they begin one after
    /// the other, and the offset of each is a character boundary of the text
    /// at which the bytes of the heading's own text stand.
    pub open spec fn is_well_formed(self) -> bool {
        let bytes = text_bytes(self.content);
        &&& forall|i: int, j: int|
            0 <= i < j < self.headings.len() ==> (#[trigger] self.headings[i]).char_offset < (
            #[trigger] self.headings[j]).char_offset
        &&& forall|i: int|
            0 <= i < self.headings.len() ==> {
                let heading = #[trigger] self.headings[i];
                let end = heading.char_offset + text_bytes(heading.text).len();
                &&& end <= bytes.len()
                &&& is_char_boundary(bytes, heading.char_offset as int)
                &&& bytes.subrange(heading.char_offset as int, end) == text_bytes(heading.text)
            }
    }

    /// Whether every heading has a depth from 1 to 6.
    pub open spec fn has_heading_depths(self) -> bool {
        forall|i: int| 0 <= i < self.headings.len() ==> 1 <= (#[trigger] self.headings[i]).level <= 6
    }
}

impl View for ParsedDocument {
    type V = ParsedDocumentView;

    open spec fn view(&self) -> ParsedDocumentView {
        ParsedDocumentView { content: self.content@, headings: headings_view(self.headings@) }
    }
}

/// A contiguous slice of a document's text, labelled with where it came from.
#[derive(Debug, Clone, PartialEq)]
pub struct DocumentChunk {
    pub id: String,
    pub content: String,
    pub source_file: String,
    pub chunk_index: usize,
    pub heading_context: Option<String>,
    pub page_number: Option<usize>,
}

/// Mathematical content of a [`DocumentChunk`].
pub ghost struct DocumentChunkView {
    pub id: Seq<char>,
    pub content: Seq<char>,
    pub source_file: Seq<char>,
    pub chunk_index: usize,
    pub heading_context: Option<Seq<char>>,
    pub page_number: Option<usize>,
}

impl View for DocumentChunk {
    type V = DocumentChunkView;

    open spec fn view(&self) -> DocumentChunkView {
        DocumentChunkView {
            id: self.id@,
            content: self.content@,
            source_file: self.source_file@,
            chunk_index: self.chunk_index,
            heading_context: match self.heading_context {
                Some(text) => Some(text@),
                None => None,
            },
            page_number: self.page_number,
        }
    }
}

/// Size and overlap budget of the chunker, both measured in bytes of the
/// flattened text.
#[derive(Debug, Clone)]
pub struct ChunkConfig {
    pub chunk_size: usize,
    pub chunk_overlap: usize,
}

/// The chunk size that is used where none is given.
pub const DEFAULT_CHUNK_SIZE: usize = 512;

/// The overlap that is used where none is given.
pub const DEFAULT_CHUNK_OVERLAP: usize = 50;

/// The setting that a raw input stands for: the number that it spells, or
/// the default where the input is missing or spells no number.
pub open spec fn setting_or(raw: Option<&str>, default: usize) -> usize {
    match raw {
        Some(text) => match parse_decimal(text@) {
            Some(value) => value,
            None => default,
        },
        None => default,
    }
}

impl ChunkConfig {
    /// A configuration is usable when the overlap is strictly smaller than the
    /// chunk size; in particular the chunk size is then at least one.
    pub open spec fn is_valid(&self) -> bool {
        self.chunk_overlap < self.chunk_size
    }

    /// The configuration that the environment asks for. The caller hands over
    /// what it found under `CHUNK_SIZE` and under `CHUNK_OVERLAP`; an input
    /// that is missing or spells no number falls back to its default, 512 or
    /// 50. Whether the overlap fits the chunk size is not checked here.
    pub fn from_env(chunk_size: Option<&str>, chunk_overlap: Option<&str>) -> (config: Self)
        ensures
            config.chunk_size == setting_or(chunk_size, DEFAULT_CHUNK_SIZE),
            config.chunk_overlap == setting_or(chunk_overlap, DEFAULT_CHUNK_OVERLAP),
    {
        ChunkConfig {
            chunk_size: read_setting(chunk_size, DEFAULT_CHUNK_SIZE),
            chunk_overlap: read_setting(chunk_overlap, DEFAULT_CHUNK_OVERLAP),
        }
    }
}

/// The number that a raw input spells, or the default.
fn read_setting(raw: Option<&str>, default: usize) -> (value: usize)
    ensures
        value == setting_or(raw, default),
{
    match raw {
        Some(text) => match parse_usize(text) {
            Some(value) => value,
            None => default,
        },
        None => default,
    }
}

impl Default for ChunkConfig {
    fn default() -> (config: Self)
        ensures
            config.chunk_size == DEFAULT_CHUNK_SIZE,
            config.chunk_overlap == DEFAULT_CHUNK_OVERLAP,
    {
        ChunkConfig { chunk_size: DEFAULT_CHUNK_SIZE, chunk_overlap: DEFAULT_CHUNK_OVERLAP }
    }
}

} // verus!
