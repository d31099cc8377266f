use ingestion::chunker::{assemble, chunk_spans, make_chunk_id, ChunkSpan};
use ingestion::{
    ChunkConfig, DocumentChunk, HeadingInfo, IngestionError, ParsedDocument, SemanticChunker,
    TextChunker,
};

fn plain(content: &str) -> ParsedDocument {
    ParsedDocument { content: content.to_string(), headings: Vec::new() }
}

fn config(chunk_size: usize, chunk_overlap: usize) -> ChunkConfig {
    ChunkConfig { chunk_size, chunk_overlap }
}

fn spans(content: &str, chunk_size: usize, chunk_overlap: usize) -> Vec<(usize, usize)> {
    let spans: Vec<ChunkSpan> = chunk_spans(content, &config(chunk_size, chunk_overlap)).unwrap();
    spans.iter().map(|span| (span.start, span.end)).collect()
}

fn assert_chain(content: &str, chunk_size: usize, chunk_overlap: usize) {
    let spans = spans(content, chunk_size, chunk_overlap);
    if content.is_empty() {
        assert!(spans.is_empty());
        return;
    }
    assert_eq!(spans[0].0, 0);
    assert_eq!(spans[spans.len() - 1].1, content.len());
    let radius = std::cmp::max(chunk_size / 10, 4);
    for &(start, end) in &spans {
        assert!(start < end);
        assert!(content.is_char_boundary(start));
        assert!(content.is_char_boundary(end));
        assert!(end - start <= chunk_size + radius);
    }
    for pair in spans.windows(2) {
        let (start, end) = pair[0];
        let (next_start, _) = pair[1];
        assert!(start < next_start);
        assert!(next_start <= end);
        assert!(end - next_start <= chunk_overlap);
        assert!(end - next_start < end - start);
    }
    for offset in 0..content.len() {
        assert!(spans.iter().any(|&(start, end)| start <= offset && offset < end));
    }
}

#[test]
fn test_default_config() {
    let config = ChunkConfig::default();
    assert_eq!(config.chunk_size, 512);
    assert_eq!(config.chunk_overlap, 50);
}

#[test]
fn test_small_document_is_one_chunk() {
    let content = "0123456789012345678901234567890123456789";
    assert_eq!(content.len(), 40);
    let chunks = SemanticChunker::new().chunk(&plain(content), "doc.md", &config(512, 50)).unwrap();

    assert_eq!(chunks.len(), 1);
    assert_eq!(
        chunks[0],
        DocumentChunk {
            id: "doc.md#0".to_string(),
            content: content.to_string(),
            source_file: "doc.md".to_string(),
            chunk_index: 0,
            heading_context: None,
            page_number: None,
        }
    );
}

#[test]
fn test_multi_chunk_scenario() {
    let content = "This is a sentence. ".repeat(50);
    assert_eq!(content.len(), 1000);

    assert_eq!(spans(&content, 512, 50), vec![(0, 519), (469, 979), (929, 1000)]);

    let chunks = assemble(&plain(&content), "notes.md", &config(512, 50)).unwrap();
    assert_eq!(chunks.len(), 3);
    for (i, chunk) in chunks.iter().enumerate() {
        assert_eq!(chunk.chunk_index, i);
    }
    assert_eq!(chunks[0].content, &content[0..519]);
    assert_eq!(chunks[1].content, &content[469..979]);
    assert_eq!(chunks[2].content, &content[929..1000]);
    assert!(chunks[0].content.ends_with("sentence."));
    assert!(chunks[1].content.ends_with("sentence."));
    assert_eq!(chunks[0].id, "notes.md#0");
    assert_eq!(chunks[1].id, "notes.md#1");
    assert_eq!(chunks[2].id, "notes.md#2");
    assert!(519 - 469 <= 50);
    assert!(979 - 929 <= 50);
}

#[test]
fn test_invalid_config_is_refused() {
    let document = plain("some text that would otherwise be chunked");
    for (chunk_size, chunk_overlap) in [(10, 10), (10, 11), (0, 0), (1, usize::MAX)] {
        let result = assemble(&document, "doc.md", &config(chunk_size, chunk_overlap));
        match result {
            Err(IngestionError::InvalidConfig(message)) => {
                assert_eq!(message, "chunk_overlap must be smaller than chunk_size");
            }
            other => panic!("expected InvalidConfig, got {:?}", other),
        }
        assert!(matches!(
            chunk_spans("text", &config(chunk_size, chunk_overlap)),
            Err(IngestionError::InvalidConfig(_))
        ));
    }
}

#[test]
fn test_invalid_config_on_empty_document() {
    let result = SemanticChunker::new().chunk(&plain(""), "doc.md", &config(5, 5));
    assert!(matches!(result, Err(IngestionError::InvalidConfig(_))));
}

#[test]
fn test_empty_content_has_no_chunks() {
    let chunks = assemble(&plain(""), "doc.md", &config(512, 50)).unwrap();
    assert!(chunks.is_empty());
    assert!(spans("", 1, 0).is_empty());
}

#[test]
fn test_single_character_document() {
    let chunks = assemble(&plain("x"), "doc.md", &config(512, 50)).unwrap();
    assert_eq!(chunks.len(), 1);
    assert_eq!(chunks[0].content, "x");
}

#[test]
fn test_whitespace_only_document() {
    let chunks = assemble(&plain(" \n\t "), "doc.md", &config(512, 50)).unwrap();
    assert_eq!(chunks.len(), 1);
    assert_eq!(chunks[0].content, " \n\t ");
    assert_eq!(chunks[0].chunk_index, 0);
}

#[test]
fn test_content_of_exactly_chunk_size() {
    assert_eq!(spans("abcdefgh", 8, 2), vec![(0, 8)]);
    assert_eq!(spans("abcdefghi", 8, 2), vec![(0, 8), (6, 9)]);
}

#[test]
fn test_hard_cuts_without_overlap() {
    let content = "x".repeat(25);
    assert_eq!(spans(&content, 10, 0), vec![(0, 10), (10, 20), (20, 25)]);
}

#[test]
fn test_overlap_close_to_chunk_size_still_advances() {
    let content = "x".repeat(8);
    assert_eq!(
        spans(&content, 4, 3),
        vec![(0, 4), (1, 5), (2, 6), (3, 7), (4, 8)]
    );
}

#[test]
fn test_chunks_snap_to_paragraphs() {
    let content = "First paragraph here.\n\nSecond paragraph is a bit longer.\n\nThird.";
    // The aim is 20; the window [16, 24] holds the end of the first paragraph at 23.
    assert_eq!(spans(content, 20, 0)[0], (0, 23));
    let chunks = assemble(&plain(content), "doc.md", &config(20, 0)).unwrap();
    assert_eq!(chunks[0].content, "First paragraph here.\n\n");
    assert!(chunks[1].content.starts_with("Second paragraph"));
}

#[test]
fn test_later_chunk_may_end_where_the_earlier_one_ended() {
    // The stride, 3, is smaller than the radius, 4: the second chunk is cut
    // at the word boundary at which the first one was cut.
    let content = format!("{}{}", "aaaaaaaaa ", "b".repeat(40));
    let spans = spans(&content, 10, 7);
    assert_eq!(spans[0], (0, 10));
    assert_eq!(spans[1], (3, 10));
    assert_eq!(spans[2], (4, 14));
    assert_chain(&content, 10, 7);
}

#[test]
fn test_fallback_when_cut_is_not_after_start() {
    // The second chunk begins at 1, inside no character; its aim, 3, lies
    // inside the emoji, and the nearest boundary is its own beginning.
    let content = "a\u{1f600}\u{1f600}b";
    assert_eq!(spans(content, 2, 1), vec![(0, 1), (1, 5), (5, 9), (9, 10)]);
    assert_chain(content, 2, 1);
}

#[test]
fn test_multibyte_text_is_cut_at_character_boundaries() {
    let content = "na\u{ef}ve caf\u{e9} \u{4f60}\u{597d}\u{4e16}\u{754c} \u{1f600}\u{1f600}\u{1f600} r\u{e9}sum\u{e9}. ".repeat(12);
    for chunk_size in [1, 2, 3, 5, 8, 13, 40, 100] {
        for chunk_overlap in [0, 1, 2, 4, 7, 12, 39] {
            if chunk_overlap < chunk_size {
                assert_chain(&content, chunk_size, chunk_overlap);
                let chunks =
                    assemble(&plain(&content), "doc.md", &config(chunk_size, chunk_overlap))
                        .unwrap();
                let spans = spans(&content, chunk_size, chunk_overlap);
                assert_eq!(chunks.len(), spans.len());
                for (i, chunk) in chunks.iter().enumerate() {
                    assert_eq!(chunk.chunk_index, i);
                    assert_eq!(chunk.content, &content[spans[i].0..spans[i].1]);
                }
            }
        }
    }
}

#[test]
fn test_coverage_and_overlap_on_prose() {
    let content = "Chunking splits text. It prefers paragraphs;\n\nthen sentences! Then words? \
                   And at last it cuts anywhere at all, if it must.\n\n"
        .repeat(9);
    for (chunk_size, chunk_overlap) in [(512, 50), (64, 16), (30, 29), (7, 0), (100, 10)] {
        assert_chain(&content, chunk_size, chunk_overlap);
    }
}

#[test]
fn test_ends_advance_when_stride_is_not_smaller_than_radius() {
    let content = "Some words, and marks. More of them; and a break\n\nhere. ".repeat(20);
    for (chunk_size, chunk_overlap) in [(512, 50), (64, 16), (8, 4), (5, 1), (100, 90)] {
        let spans = spans(&content, chunk_size, chunk_overlap);
        for pair in spans.windows(2) {
            assert!(pair[0].1 < pair[1].1);
            let shared = pair[0].1 - pair[1].0;
            assert!(shared < pair[1].1 - pair[1].0);
        }
    }
}

#[test]
fn test_heading_context_of_chunks() {
    let document = ParsedDocument {
        content: "x".repeat(600),
        headings: vec![
            HeadingInfo { level: 1, text: "A".to_string(), char_offset: 0 },
            HeadingInfo { level: 2, text: "B".to_string(), char_offset: 300 },
        ],
    };
    let chunks = assemble(&document, "doc.md", &config(310, 0)).unwrap();
    assert_eq!(chunks.len(), 2);
    assert_eq!(chunks[0].heading_context, Some("A".to_string()));
    assert_eq!(chunks[1].heading_context, Some("A > B".to_string()));

    let chunks = assemble(&document, "doc.md", &config(200, 0)).unwrap();
    assert_eq!(chunks.len(), 3);
    assert_eq!(chunks[0].heading_context, Some("A".to_string()));
    assert_eq!(chunks[1].heading_context, Some("A".to_string()));
    assert_eq!(chunks[2].heading_context, Some("A > B".to_string()));
}

#[test]
fn test_chunk_before_any_heading_has_no_context() {
    let document = ParsedDocument {
        content: "x".repeat(50),
        headings: vec![HeadingInfo { level: 1, text: "Late".to_string(), char_offset: 30 }],
    };
    let chunks = assemble(&document, "doc.md", &config(20, 0)).unwrap();
    assert_eq!(chunks.len(), 3);
    assert_eq!(chunks[0].heading_context, None);
    assert_eq!(chunks[1].heading_context, None);
    assert_eq!(chunks[2].heading_context, Some("Late".to_string()));
    for chunk in &chunks {
        assert_eq!(chunk.page_number, None);
        assert_eq!(chunk.source_file, "doc.md");
    }
}

#[test]
fn test_chunk_ids() {
    assert_eq!(make_chunk_id("a.md", 0), "a.md#0");
    assert_eq!(make_chunk_id("a.md", 9), "a.md#9");
    assert_eq!(make_chunk_id("a.md", 10), "a.md#10");
    assert_eq!(make_chunk_id("dir/b.md", 1234567890), "dir/b.md#1234567890");
    assert_eq!(make_chunk_id("", 42), "#42");
    assert_eq!(make_chunk_id("x", usize::MAX), format!("x#{}", usize::MAX));
}

#[test]
fn test_sequential_indices() {
    let content = "word ".repeat(200);
    let chunks = assemble(&plain(&content), "doc.md", &config(64, 8)).unwrap();
    assert!(chunks.len() > 10);
    for (i, chunk) in chunks.iter().enumerate() {
        assert_eq!(chunk.chunk_index, i);
        assert_eq!(chunk.id, format!("doc.md#{}", i));
    }
}

#[test]
fn test_config_from_env_values() {
    let config = ChunkConfig::from_env(Some("1024"), Some("128"));
    assert_eq!(config.chunk_size, 1024);
    assert_eq!(config.chunk_overlap, 128);

    let config = ChunkConfig::from_env(None, None);
    assert_eq!(config.chunk_size, 512);
    assert_eq!(config.chunk_overlap, 50);

    let config = ChunkConfig::from_env(Some("+7"), Some("007"));
    assert_eq!(config.chunk_size, 7);
    assert_eq!(config.chunk_overlap, 7);
}

#[test]
fn test_config_from_env_falls_back_on_unparsable_values() {
    for raw in ["", "abc", "12a", " 12", "12 ", "-3", "+", "1_000", "1.5", "99999999999999999999999999"] {
        let config = ChunkConfig::from_env(Some(raw), Some(raw));
        assert_eq!(config.chunk_size, 512);
        assert_eq!(config.chunk_overlap, 50);
    }
    let config = ChunkConfig::from_env(Some("x"), Some("3"));
    assert_eq!(config.chunk_size, 512);
    assert_eq!(config.chunk_overlap, 3);
}

#[test]
fn test_config_from_env_is_not_validated() {
    let config = ChunkConfig::from_env(Some("10"), Some("20"));
    assert_eq!(config.chunk_size, 10);
    assert_eq!(config.chunk_overlap, 20);
    assert!(matches!(
        assemble(&plain("text"), "doc.md", &config),
        Err(IngestionError::InvalidConfig(_))
    ));
}
