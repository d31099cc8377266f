//! The sliding window that cuts a document into overlapping chunks.
//!
//! Offsets and lengths are counted in bytes of the UTF-8 text. Each window
//! begins at a character boundary, aims at `chunk_size` bytes and ends where
//! [`find_cut`] finds the best boundary near that aim; the next window begins
//! `chunk_overlap` bytes before the end of the last one.
use crate::boundary::{best_cut, find_cut, lemma_best_cut_exists};
use crate::chunk_laws::lemma_spans_are_well_formed;
use crate::error::IngestionError;
use crate::heading_index::{context_at_spec, HeadingIndex};
use crate::text::{byte_len, slice_text, text_bytes};
use crate::traits::TextChunker;
use crate::types::{
    ChunkConfig, DocumentChunk, DocumentChunkView, ParsedDocument, ParsedDocumentView,
};
use vstd::prelude::*;
use vstd::string::*;
use vstd::utf8::*;

verus! {

broadcast use {encode_utf8_valid_utf8, encode_utf8_decode_utf8};

/// The least radius of the window in which a cut is looked for.
pub const MIN_CUT_RADIUS: usize = 4;

/// The radius of the window in which a cut is looked for: a tenth of the
/// chunk size, and at least [`MIN_CUT_RADIUS`].
pub open spec fn cut_radius(chunk_size: int) -> int {
    if chunk_size / 10 >= MIN_CUT_RADIUS {
        chunk_size / 10
    } else {
        MIN_CUT_RADIUS as int
    }
}

/// The first character boundary at or after `from`, or the end of the text.
pub open spec fn boundary_at_or_after(bytes: Seq<u8>, from: int) -> int
    decreases bytes.len() - from,
{
    if from >= bytes.len() {
        bytes.len() as int
    } else if is_char_boundary(bytes, from) {
        from
    } else {
        boundary_at_or_after(bytes, from + 1)
    }
}

/// Where the chunk that begins at `start` ends.
///
/// A chunk that reaches the end of the text within `chunk_size` bytes ends
/// there. Any other ends at the best cut near `start + chunk_size`, or, where
/// that cut would not lie after `start`, at the first character boundary at or
/// after `start + chunk_size`.
pub open spec fn chunk_end(bytes: Seq<u8>, chunk_size: int, start: int) -> int {
    if start + chunk_size >= bytes.len() {
        bytes.len() as int
    } else {
        let cut = best_cut(bytes, start + chunk_size, cut_radius(chunk_size));
        if cut > start {
            cut
        } else {
            boundary_at_or_after(bytes, start + chunk_size)
        }
    }
}

/// Where the chunk begins that follows the one from `start` to `end`:
/// `chunk_overlap` bytes before `end`, but after `start`, and moved forward to
/// a character boundary.
pub open spec fn next_start(bytes: Seq<u8>, chunk_overlap: int, start: int, end: int) -> int {
    boundary_at_or_after(
        bytes,
        if end - chunk_overlap > start {
            end - chunk_overlap
        } else {
            start + 1
        },
    )
}

/// The bytes `[start, end)` of a text.
pub ghost struct Span {
    pub start: int,
    pub end: int,
}

/// The bytes `[start, end)` of a text.
#[derive(Clone, Copy, Debug, PartialEq, Eq)]
pub struct ChunkSpan {
    pub start: usize,
    pub end: usize,
}

impl View for ChunkSpan {
    type V = Span;

    open spec fn view(&self) -> Span {
        Span { start: self.start as int, end: self.end as int }
    }
}

/// The views of a list of spans, in the same order.
pub open spec fn spans_view(spans: Seq<ChunkSpan>) -> Seq<Span> {
    Seq::new(spans.len(), |i: int| spans[i]@)
}

/// The spans of the chunks from the one that begins at `start` to the last.
///
/// The chunk at `start` is the last one if it ends where the text ends. The
/// next chunk always begins after `start` and inside the text (see
/// [`lemma_next_start`]); the definition says so to show that it ends.
pub open spec fn spans_from(bytes: Seq<u8>, chunk_size: int, chunk_overlap: int, start: int) -> Seq<
    Span,
>
    decreases bytes.len() - start,
{
    if start < 0 || start >= bytes.len() {
        Seq::empty()
    } else {
        let end = chunk_end(bytes, chunk_size, start);
        let next = next_start(bytes, chunk_overlap, start, end);
        if end < bytes.len() && start < next <= bytes.len() {
            seq![Span { start, end }] + spans_from(bytes, chunk_size, chunk_overlap, next)
        } else {
            seq![Span { start, end }]
        }
    }
}

/// The spans of the chunks of a text, in order. An empty text has none.
pub open spec fn chunk_spans_spec(bytes: Seq<u8>, chunk_size: int, chunk_overlap: int) -> Seq<
    Span,
> {
    spans_from(bytes, chunk_size, chunk_overlap, 0)
}

/// Whether `spans` is a chain of chunks over a text: every span lies between
/// two character boundaries and is not empty, each span but the first begins
/// after the one before it began and not after that one ended, and shares at
/// most `chunk_overlap` bytes with it, and only the last span reaches the end
/// of the text.
pub open spec fn is_chain(bytes: Seq<u8>, chunk_overlap: int, spans: Seq<Span>) -> bool {
    &&& forall|k: int|
        0 <= k < spans.len() ==> {
            &&& 0 <= (#[trigger] spans[k]).start < spans[k].end <= bytes.len()
            &&& is_char_boundary(bytes, spans[k].start)
            &&& is_char_boundary(bytes, spans[k].end)
        }
    &&& forall|k: int|
        0 <= k < spans.len() - 1 ==> {
            &&& (#[trigger] spans[k]).start < spans[k + 1].start <= spans[k].end
            &&& spans[k].end - spans[k + 1].start <= chunk_overlap
            &&& spans[k].end < bytes.len()
        }
    &&& spans.len() > 0 ==> spans.last().end == bytes.len()
}

/// The character that writes the digit `d`.
pub open spec fn digit_char(d: int) -> char {
    seq!['0', '1', '2', '3', '4', '5', '6', '7', '8', '9'][d]
}

/// The decimal notation of `n`, without leading zeros.
pub open spec fn decimal_text(n: nat) -> Seq<char>
    decreases n,
{
    if n < 10 {
        seq![digit_char(n as int)]
    } else {
        decimal_text(n / 10).push(digit_char((n % 10) as int))
    }
}

/// The identifier of chunk number `index` of a source: the source's name, a
/// `#`, and the index in decimal notation.
pub open spec fn chunk_id(source_file: Seq<char>, index: nat) -> Seq<char> {
    source_file + seq!['#'] + decimal_text(index)
}

/// The chunk that a span of a document becomes.
pub open spec fn chunk_of_span(
    document: ParsedDocumentView,
    source_file: Seq<char>,
    span: Span,
    index: int,
) -> DocumentChunkView {
    DocumentChunkView {
        id: chunk_id(source_file, index as nat),
        content: decode_utf8(text_bytes(document.content).subrange(span.start, span.end)),
        source_file,
        chunk_index: index as usize,
        heading_context: context_at_spec(document.headings, span.start),
        page_number: None,
    }
}

/// The chunks of a document, in order.
pub open spec fn assemble_spec(
    document: ParsedDocumentView,
    source_file: Seq<char>,
    chunk_size: int,
    chunk_overlap: int,
) -> Seq<DocumentChunkView> {
    let spans = chunk_spans_spec(text_bytes(document.content), chunk_size, chunk_overlap);
    Seq::new(spans.len(), |i: int| chunk_of_span(document, source_file, spans[i], i))
}

/// The views of a list of chunks, in the same order.
pub open spec fn chunks_view(chunks: Seq<DocumentChunk>) -> Seq<DocumentChunkView> {
    Seq::new(chunks.len(), |i: int| chunks[i]@)
}

/// What is said of a configuration that cannot be used.
pub open spec fn invalid_config_message() -> Seq<char> {
    "chunk_overlap must be smaller than chunk_size"@
}

/// [`boundary_at_or_after`] gives the first character boundary that is not
/// before `from`.
pub proof fn lemma_boundary_at_or_after(bytes: Seq<u8>, from: int)
    requires
        valid_utf8(bytes),
        0 <= from <= bytes.len(),
    ensures
        from <= boundary_at_or_after(bytes, from) <= bytes.len(),
        is_char_boundary(bytes, boundary_at_or_after(bytes, from)),
        forall|q: int|
            from <= q < boundary_at_or_after(bytes, from) ==> !#[trigger] is_char_boundary(
                bytes,
                q,
            ),
    decreases bytes.len() - from,
{
    if from >= bytes.len() {
        is_char_boundary_start_end_of_seq(bytes);
    } else if is_char_boundary(bytes, from) {
    } else {
        lemma_boundary_at_or_after(bytes, from + 1);
    }
}

/// A chunk that begins at a character boundary inside the text ends at a
/// character boundary after its beginning.
pub proof fn lemma_chunk_end(bytes: Seq<u8>, chunk_size: int, start: int)
    requires
        valid_utf8(bytes),
        0 <= start < bytes.len(),
        chunk_size >= 1,
    ensures
        start < chunk_end(bytes, chunk_size, start) <= bytes.len(),
        is_char_boundary(bytes, chunk_end(bytes, chunk_size, start)),
{
    if start + chunk_size >= bytes.len() {
        is_char_boundary_start_end_of_seq(bytes);
    } else {
        let target = start + chunk_size;
        let cut = best_cut(bytes, target, cut_radius(chunk_size));
        lemma_boundary_at_or_after(bytes, target);
        if cut > start {
            lemma_best_cut_exists(bytes, target, cut_radius(chunk_size));
        }
    }
}

/// The chunk after the one from `start` to `end` begins at a character
/// boundary after `start` and not after `end`, and shares at most
/// `chunk_overlap` bytes with it.
pub proof fn lemma_next_start(bytes: Seq<u8>, chunk_overlap: int, start: int, end: int)
    requires
        valid_utf8(bytes),
        0 <= start < end <= bytes.len(),
        is_char_boundary(bytes, end),
        chunk_overlap >= 0,
    ensures
        start < next_start(bytes, chunk_overlap, start, end) <= end,
        end - next_start(bytes, chunk_overlap, start, end) <= chunk_overlap,
        is_char_boundary(bytes, next_start(bytes, chunk_overlap, start, end)),
{
    let from = if end - chunk_overlap > start {
        end - chunk_overlap
    } else {
        start + 1
    };
    lemma_boundary_at_or_after(bytes, from);
}

/// The first character boundary of `content` at or after `from`.
fn find_boundary_at_or_after(content: &str, from: usize) -> (at: usize)
    requires
        from <= text_bytes(content@).len(),
    ensures
        at == boundary_at_or_after(text_bytes(content@), from as int),
{
    let ghost bytes = text_bytes(content@);
    let len = byte_len(content);
    let mut at = from;
    while at < len && !content.is_char_boundary(at)
        invariant
            bytes == text_bytes(content@),
            len == bytes.len(),
            from <= at <= len,
            boundary_at_or_after(bytes, from as int) == boundary_at_or_after(bytes, at as int),
        decreases len - at,
    {
        at = at + 1;
    }
    at
}

/// The text of the digit `d`.
fn digit_text(d: usize) -> (text: &'static str)
    requires
        d < 10,
    ensures
        text@ == seq![digit_char(d as int)],
{
    proof {
        reveal_strlit("0");
        reveal_strlit("1");
        reveal_strlit("2");
        reveal_strlit("3");
        reveal_strlit("4");
        reveal_strlit("5");
        reveal_strlit("6");
        reveal_strlit("7");
        reveal_strlit("8");
        reveal_strlit("9");
    }
    let text = match d {
        0 => "0",
        1 => "1",
        2 => "2",
        3 => "3",
        4 => "4",
        5 => "5",
        6 => "6",
        7 => "7",
        8 => "8",
        _ => "9",
    };
    text
}

/// Appends the decimal notation of `n` to `out`.
fn append_decimal(out: &mut String, n: usize)
    ensures
        final(out)@ == old(out)@ + decimal_text(n as nat),
    decreases n,
{
    if n >= 10 {
        append_decimal(out, n / 10);
    }
    out.append(digit_text(n % 10));
}

/// The identifier of chunk number `index` of `source_file`.
pub fn make_chunk_id(source_file: &str, index: usize) -> (id: String)
    ensures
        id@ == chunk_id(source_file@, index as nat),
{
    let mut id = source_file.to_owned();
    proof {
        reveal_strlit("#");
    }
    id.append("#");
    append_decimal(&mut id, index);
    id
}

/// The error for a configuration that cannot be used.
pub(crate) fn invalid_config() -> (e: IngestionError)
    ensures
        e matches IngestionError::InvalidConfig(message) && message@ == invalid_config_message(),
{
    IngestionError::InvalidConfig("chunk_overlap must be smaller than chunk_size".to_owned())
}

/// Lays out the chunks of `content`: where each begins and ends.
///
/// A configuration whose overlap is not smaller than its chunk size is
/// refused. Otherwise the result lists the spans of [`chunk_spans_spec`].
pub fn chunk_spans(content: &str, config: &ChunkConfig) -> (result: Result<
    Vec<ChunkSpan>,
    IngestionError,
>)
    ensures
        result is Ok <==> config.is_valid(),
        result matches Ok(spans) ==> spans_view(spans@) == chunk_spans_spec(
            text_bytes(content@),
            config.chunk_size as int,
            config.chunk_overlap as int,
        ),
        result matches Ok(spans) ==> is_chain(
            text_bytes(content@),
            config.chunk_overlap as int,
            spans_view(spans@),
        ),
        result matches Ok(spans) ==> (spans.len() == 0 <==> content@.len() == 0),
        result matches Ok(spans) ==> spans.len() > 0 ==> spans[0].start == 0,
        result matches Err(e) ==> e matches IngestionError::InvalidConfig(message) && message@
            == invalid_config_message(),
{
    if config.chunk_overlap >= config.chunk_size {
        return Err(invalid_config());
    }
    let ghost bytes = text_bytes(content@);
    let ghost size = config.chunk_size as int;
    let ghost overlap = config.chunk_overlap as int;
    let len = byte_len(content);
    let radius = if config.chunk_size / 10 >= MIN_CUT_RADIUS {
        config.chunk_size / 10
    } else {
        MIN_CUT_RADIUS
    };
    let mut spans: Vec<ChunkSpan> = Vec::new();
    let mut start: usize = 0;
    let mut done = len == 0;
    while !done
        invariant
            bytes == text_bytes(content@),
            len == bytes.len(),
            size == config.chunk_size,
            overlap == config.chunk_overlap,
            0 <= overlap < size,
            radius == cut_radius(size),
            !done ==> start < len && is_char_boundary(bytes, start as int),
            !done ==> chunk_spans_spec(bytes, size, overlap) == spans_view(spans@) + spans_from(
                bytes,
                size,
                overlap,
                start as int,
            ),
            done ==> chunk_spans_spec(bytes, size, overlap) == spans_view(spans@),
        decreases len - start, if done { 0int } else { 1int },
    {
        let ghost before = spans@;
        let end = if config.chunk_size >= len - start {
            len
        } else {
            let target = start + config.chunk_size;
            let cut = find_cut(content, target, radius);
            if cut > start {
                cut
            } else {
                find_boundary_at_or_after(content, target)
            }
        };
        proof {
            lemma_chunk_end(bytes, size, start as int);
            lemma_next_start(bytes, overlap, start as int, end as int);
        }
        spans.push(ChunkSpan { start, end });
        assert(spans_view(spans@) =~= spans_view(before) + seq![Span {
            start: start as int,
            end: end as int,
        }]);
        if end >= len {
            done = true;
        } else {
            let from = if end - start > config.chunk_overlap {
                end - config.chunk_overlap
            } else {
                start + 1
            };
            let next = find_boundary_at_or_after(content, from);
            start = next;
        }
    }
    proof {
        lemma_spans_are_well_formed(bytes, size, overlap);
        assert(content@.len() == 0 <==> bytes.len() == 0) by {
            if content@.len() > 0 {
                encode_utf8_first_scalar(content@);
            }
        }
    }
    Ok(spans)
}

/// Cuts a parsed document into chunks.
///
/// A configuration whose overlap is not smaller than its chunk size is
/// refused before any chunk is made. Otherwise the chunks are those of
/// [`assemble_spec`]: one for each span of [`chunk_spans_spec`], holding the
/// text of its span, numbered from zero, named after the source and its
/// number, and labelled with the heading path that is active where it begins.
/// An empty document has no chunks.
pub fn assemble(document: &ParsedDocument, source_file: &str, config: &ChunkConfig) -> (result:
    Result<Vec<DocumentChunk>, IngestionError>)
    ensures
        result is Ok <==> config.is_valid(),
        result matches Ok(chunks) ==> chunks_view(chunks@) == assemble_spec(
            document@,
            source_file@,
            config.chunk_size as int,
            config.chunk_overlap as int,
        ),
        result matches Ok(chunks) ==> chunks.len() == chunk_spans_spec(
            text_bytes(document.content@),
            config.chunk_size as int,
            config.chunk_overlap as int,
        ).len(),
        result matches Ok(chunks) ==> forall|i: int|
            0 <= i < chunks.len() ==> (#[trigger] chunks[i]).chunk_index == i,
        result matches Ok(chunks) ==> (chunks.len() == 0 <==> document.content@.len() == 0),
        result matches Ok(chunks) ==> 0 < text_bytes(document.content@).len() <= config.chunk_size
            ==> chunks.len() == 1 && chunks[0].content@ == document.content@,
        result matches Err(e) ==> e matches IngestionError::InvalidConfig(message) && message@
            == invalid_config_message(),
{
    let content = document.content.as_str();
    let spans = match chunk_spans(content, config) {
        Ok(spans) => spans,
        Err(e) => {
            return Err(e);
        },
    };
    let ghost bytes = text_bytes(document.content@);
    let ghost size = config.chunk_size as int;
    let ghost overlap = config.chunk_overlap as int;
    let ghost layout = chunk_spans_spec(bytes, size, overlap);
    let ghost expected = assemble_spec(document@, source_file@, size, overlap);
    let index = HeadingIndex::new(&document.headings);
    let mut chunks: Vec<DocumentChunk> = Vec::new();
    let mut i: usize = 0;
    while i < spans.len()
        invariant
            bytes == text_bytes(document.content@),
            content@ == document.content@,
            layout == spans_view(spans@),
            expected.len() == layout.len(),
            forall|k: int| 0 <= k < layout.len() ==> #[trigger] expected[k] == chunk_of_span(
                document@,
                source_file@,
                layout[k],
                k,
            ),
            is_chain(bytes, overlap, layout),
            index@ == document@.headings,
            i <= spans.len(),
            chunks.len() == i,
            forall|k: int| 0 <= k < i ==> (#[trigger] chunks@[k])@ == expected[k],
            forall|k: int| 0 <= k < i ==> (#[trigger] chunks@[k]).chunk_index == k,
        decreases spans.len() - i,
    {
        let span = spans[i];
        assert(layout[i as int] == span@);
        let chunk = DocumentChunk {
            id: make_chunk_id(source_file, i),
            content: slice_text(content, span.start, span.end),
            source_file: source_file.to_owned(),
            chunk_index: i,
            heading_context: index.context_at(span.start),
            page_number: None,
        };
        chunks.push(chunk);
        i = i + 1;
    }
    proof {
        if 0 < bytes.len() <= config.chunk_size {
            assert(bytes.subrange(0, bytes.len() as int) =~= bytes);
        }
    }
    Ok(chunks)
}

/// The chunker of this library: boundary-aware, overlapping, labelled with
/// heading paths.
pub struct SemanticChunker;

impl SemanticChunker {
    /// The chunker; it holds no state.
    pub fn new() -> Self {
        SemanticChunker
    }
}

impl Default for SemanticChunker {
    fn default() -> Self {
        SemanticChunker::new()
    }
}

impl TextChunker for SemanticChunker {
    /// Cuts the document as [`assemble`] does.
    fn chunk(&self, document: &ParsedDocument, source_file: &str, config: &ChunkConfig) -> (result:
        Result<Vec<DocumentChunk>, IngestionError>)
        ensures
            result matches Ok(chunks) ==> chunks_view(chunks@) == assemble_spec(
                document@,
                source_file@,
                config.chunk_size as int,
                config.chunk_overlap as int,
            ),
            result matches Ok(chunks) ==> forall|i: int|
                0 <= i < chunks.len() ==> (#[trigger] chunks[i]).chunk_index == i,
            result matches Ok(chunks) ==> (chunks.len() == 0 <==> document.content@.len() == 0),
            result matches Ok(chunks) ==> 0 < text_bytes(document.content@).len()
                <= config.chunk_size ==> chunks.len() == 1 && chunks[0].content@
                == document.content@,
            result matches Err(e) ==> e matches IngestionError::InvalidConfig(message) && message@
                == invalid_config_message(),
    {
        assemble(document, source_file, config)
    }
}

} // verus!
