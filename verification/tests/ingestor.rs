use ingestion::ingestor::{path_has_any_extension, path_has_extension, SourceFile};
use ingestion::text::{ends_with_newline, trimmed_end};
use ingestion::{ChunkConfig, IngestionError, Ingestor, MarkdownIngestor};

fn file(path: &str, text: &str) -> SourceFile {
    SourceFile { path: path.to_string(), text: text.to_string() }
}

#[test]
fn test_path_extensions() {
    assert!(path_has_extension("notes.md", "md"));
    assert!(path_has_extension("dir/notes.markdown", "markdown"));
    assert!(!path_has_extension("notes.md", "markdown"));
    assert!(!path_has_extension("notes.txt", "md"));
    assert!(!path_has_extension("md", "md"));
    assert!(!path_has_extension("notesmd", "md"));
    assert!(!path_has_extension("notes.MD", "md"));
    assert!(!path_has_extension("", "md"));
    assert!(path_has_extension("a.", ""));
    assert!(path_has_any_extension("a.markdown", &["md", "markdown"]));
    assert!(!path_has_any_extension("a.rs", &["md", "markdown"]));
    assert!(!path_has_any_extension("a.md", &[]));
}

#[test]
fn test_accepts_markdown_paths() {
    let ingestor = MarkdownIngestor::new(ChunkConfig::default());
    assert!(ingestor.accepts("README.md"));
    assert!(ingestor.accepts("docs/guide.markdown"));
    assert!(!ingestor.accepts("main.rs"));
    assert!(!ingestor.accepts("README"));
}

#[test]
fn test_ingest_file() {
    let ingestor = MarkdownIngestor::new(ChunkConfig::default());
    let chunks = ingestor.ingest_file("guide.md", "# Guide\n\nRead this first.").unwrap();

    assert_eq!(chunks.len(), 1);
    assert_eq!(chunks[0].content, "Guide\nRead this first.");
    assert_eq!(chunks[0].source_file, "guide.md");
    assert_eq!(chunks[0].id, "guide.md#0");
    assert_eq!(chunks[0].heading_context, Some("Guide".to_string()));
}

#[test]
fn test_ingest_file_of_unsupported_type() {
    let ingestor = MarkdownIngestor::new(ChunkConfig::default());
    match ingestor.ingest_file("main.rs", "fn main() {}") {
        Err(IngestionError::UnsupportedFileType(path)) => assert_eq!(path, "main.rs"),
        other => panic!("expected UnsupportedFileType, got {:?}", other),
    }
}

#[test]
fn test_ingest_file_with_invalid_config() {
    let ingestor = MarkdownIngestor::new(ChunkConfig { chunk_size: 10, chunk_overlap: 10 });
    assert!(matches!(
        ingestor.ingest_file("a.md", "text"),
        Err(IngestionError::InvalidConfig(_))
    ));
    assert!(matches!(
        ingestor.ingest_file("a.txt", "text"),
        Err(IngestionError::UnsupportedFileType(_))
    ));
}

#[test]
fn test_ingest_directory_keeps_the_order_of_files() {
    let ingestor = MarkdownIngestor::new(ChunkConfig { chunk_size: 10, chunk_overlap: 0 });
    let files = vec![
        file("a.md", "alpha beta gamma"),
        file("skip.txt", "not markdown"),
        file("b.markdown", "# B\n\nbody"),
    ];
    let chunks = ingestor.ingest_directory(&files).unwrap();

    let sources: Vec<&str> = chunks.iter().map(|chunk| chunk.source_file.as_str()).collect();
    assert_eq!(sources, vec!["a.md", "a.md", "b.markdown"]);
    let indices: Vec<usize> = chunks.iter().map(|chunk| chunk.chunk_index).collect();
    assert_eq!(indices, vec![0, 1, 0]);
    assert_eq!(chunks[0].content, "alpha beta ");
    assert_eq!(chunks[1].content, "gamma");
    assert_eq!(chunks[2].content, "B\nbody");
}

#[test]
fn test_ingest_directory_with_invalid_config() {
    let ingestor = MarkdownIngestor::new(ChunkConfig { chunk_size: 0, chunk_overlap: 0 });
    assert!(matches!(
        ingestor.ingest_directory(&Vec::new()),
        Err(IngestionError::InvalidConfig(_))
    ));
}

#[test]
fn test_ingest_empty_directory() {
    let ingestor = MarkdownIngestor::new(ChunkConfig::default());
    assert!(ingestor.ingest_directory(&Vec::new()).unwrap().is_empty());
    assert!(ingestor.ingest_directory(&vec![file("empty.md", "")]).unwrap().is_empty());
}

#[test]
fn test_trimmed_end() {
    assert_eq!(trimmed_end("abc  \n\t"), "abc");
    assert_eq!(trimmed_end("  abc"), "  abc");
    assert_eq!(trimmed_end("a b\u{a0}\u{2003}"), "a b");
    assert_eq!(trimmed_end(" \n "), "");
    assert_eq!(trimmed_end(""), "");
}

#[test]
fn test_ends_with_newline() {
    assert!(ends_with_newline("abc\n"));
    assert!(ends_with_newline("\n"));
    assert!(!ends_with_newline("abc"));
    assert!(!ends_with_newline(""));
    assert!(!ends_with_newline("abc\n "));
    assert!(!ends_with_newline("abc\u{10a}"));
}
