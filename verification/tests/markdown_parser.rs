use ingestion::markdown::{build_document, MarkdownEvent};
use ingestion::{DocumentParserLocal, MarkdownParser};

#[test]
fn test_simple_markdown() {
    let parser = MarkdownParser::new();
    let markdown = "# Hello World\n\nThis is a simple paragraph.";
    let doc = parser.parse_content(markdown);

    assert!(doc.content.contains("Hello World"));
    assert!(doc.content.contains("This is a simple paragraph."));
    assert_eq!(doc.headings.len(), 1);
    assert_eq!(doc.headings[0].level, 1);
    assert_eq!(doc.headings[0].text, "Hello World");
}

#[test]
fn test_nested_headings() {
    let parser = MarkdownParser::new();
    let markdown = r#"# Top Level

Some intro text.

## Second Level

More details here.

### Third Level

Even more details.

## Another Second Level

Back to level 2.
"#;
    let doc = parser.parse_content(markdown);

    assert_eq!(doc.headings.len(), 4);

    assert_eq!(doc.headings[0].level, 1);
    assert_eq!(doc.headings[0].text, "Top Level");

    assert_eq!(doc.headings[1].level, 2);
    assert_eq!(doc.headings[1].text, "Second Level");

    assert_eq!(doc.headings[2].level, 3);
    assert_eq!(doc.headings[2].text, "Third Level");

    assert_eq!(doc.headings[3].level, 2);
    assert_eq!(doc.headings[3].text, "Another Second Level");

    for i in 1..doc.headings.len() {
        assert!(
            doc.headings[i].char_offset > doc.headings[i - 1].char_offset,
            "Heading {} should have char_offset > heading {}",
            i,
            i - 1
        );
    }
}

#[test]
fn test_code_blocks() {
    let parser = MarkdownParser::new();
    let markdown = r#"# Code Example

Here is some code:

```rust
fn main() {
    println!("Hello");
}
```

And some inline `code` too.
"#;
    let doc = parser.parse_content(markdown);

    assert!(doc.content.contains("fn main()"));
    assert!(doc.content.contains("println!"));
    assert!(doc.content.contains("`code`"));
}

#[test]
fn test_lists() {
    let parser = MarkdownParser::new();
    let markdown = r#"# Shopping List

- Apples
- Bananas
- Oranges

And numbered items too.
"#;
    let doc = parser.parse_content(markdown);

    assert!(doc.content.contains("- Apples"));
    assert!(doc.content.contains("- Bananas"));
    assert!(doc.content.contains("- Oranges"));
}

#[test]
fn test_nested_lists() {
    let parser = MarkdownParser::new();
    let markdown = r#"# Nested List

- Item 1
  - Sub item A
  - Sub item B
- Item 2
"#;
    let doc = parser.parse_content(markdown);

    assert!(doc.content.contains("Item 1"));
    assert!(doc.content.contains("Sub item A"));
    assert!(doc.content.contains("Sub item B"));
    assert!(doc.content.contains("Item 2"));
}

#[test]
fn test_supported_extensions() {
    let parser = MarkdownParser::new();
    let extensions = parser.supported_extensions();

    assert!(extensions.contains(&"md"));
    assert!(extensions.contains(&"markdown"));
    assert_eq!(extensions.len(), 2);
}

#[test]
fn test_parse_file() {
    let parser = MarkdownParser::new();

    let text = "# Test File\n\nSome content here.\n";

    let doc = parser.parse(text).unwrap();

    assert!(doc.content.contains("Test File"));
    assert!(doc.content.contains("Some content here."));
    assert_eq!(doc.headings.len(), 1);
}

#[test]
fn test_heading_with_inline_code() {
    let parser = MarkdownParser::new();
    let markdown = "# The `main` function\n\nDescription here.";
    let doc = parser.parse_content(markdown);

    assert_eq!(doc.headings.len(), 1);
    assert_eq!(doc.headings[0].text, "The `main` function");
}

#[test]
fn test_empty_document() {
    let parser = MarkdownParser::new();
    let doc = parser.parse_content("");

    assert!(doc.content.is_empty());
    assert!(doc.headings.is_empty());
}

#[test]
fn test_document_without_headings() {
    let parser = MarkdownParser::new();
    let markdown = "Just some plain text.\n\nWith multiple paragraphs.";
    let doc = parser.parse_content(markdown);

    assert!(doc.content.contains("Just some plain text."));
    assert!(doc.content.contains("With multiple paragraphs."));
    assert!(doc.headings.is_empty());
}

#[test]
fn test_heading_char_offset_accuracy() {
    let parser = MarkdownParser::new();
    let markdown = "# First\n\nSome text.\n\n## Second";
    let doc = parser.parse_content(markdown);

    assert_eq!(doc.headings.len(), 2);

    assert_eq!(doc.headings[0].char_offset, 0);
    assert_eq!(&doc.content[doc.headings[0].char_offset..].starts_with("First"), &true);

    let second_offset = doc.headings[1].char_offset;
    assert!(doc.content[second_offset..].starts_with("Second"));
}

#[test]
fn test_flattened_text_is_exact() {
    let parser = MarkdownParser::new();
    let doc = parser.parse_content("# First\n\nSome text.\n\n## Second");

    assert_eq!(doc.content, "First\nSome text.\n\n\nSecond");
    assert_eq!(doc.headings[0].char_offset, 0);
    assert_eq!(doc.headings[1].char_offset, 19);
    assert_eq!(doc.headings[1].level, 2);
}

#[test]
fn test_nested_list_is_indented() {
    let parser = MarkdownParser::new();
    let doc = parser.parse_content("- Item 1\n  - Sub item A\n- Item 2\n");

    assert_eq!(doc.content, "- Item 1  - Sub item A\n- Item 2");
}

#[test]
fn test_soft_break_becomes_blank() {
    let parser = MarkdownParser::new();
    let doc = parser.parse_content("one\ntwo");

    assert_eq!(doc.content, "one two");
}

#[test]
fn test_heading_offset_counts_bytes() {
    let parser = MarkdownParser::new();
    let doc = parser.parse_content("héllo\n\n# Título");

    assert_eq!(doc.content, "héllo\n\n\nTítulo");
    assert_eq!(doc.headings.len(), 1);
    assert_eq!(doc.headings[0].char_offset, 9);
    assert!(doc.content.is_char_boundary(doc.headings[0].char_offset));
    assert_eq!(doc.headings[0].text, "Título");
}

#[test]
fn test_build_document_from_events() {
    let events = vec![
        MarkdownEvent::HeadingStart(2),
        MarkdownEvent::Text("Setup".to_string()),
        MarkdownEvent::HeadingEnd,
        MarkdownEvent::ParagraphStart,
        MarkdownEvent::Text("Run ".to_string()),
        MarkdownEvent::Code("make".to_string()),
        MarkdownEvent::Text(".".to_string()),
        MarkdownEvent::ParagraphEnd,
        MarkdownEvent::ListStart,
        MarkdownEvent::ItemStart,
        MarkdownEvent::Text("a".to_string()),
        MarkdownEvent::ListStart,
        MarkdownEvent::ItemStart,
        MarkdownEvent::Text("b".to_string()),
        MarkdownEvent::ItemEnd,
        MarkdownEvent::ListEnd,
        MarkdownEvent::ItemEnd,
        MarkdownEvent::ListEnd,
        MarkdownEvent::Other,
    ];
    let doc = build_document(&events);

    assert_eq!(doc.content, "Setup\nRun `make`.\n- a  - b");
    assert_eq!(doc.headings.len(), 1);
    assert_eq!(doc.headings[0].level, 2);
    assert_eq!(doc.headings[0].text, "Setup");
    assert_eq!(doc.headings[0].char_offset, 0);
}

#[test]
fn test_break_inside_code_block_is_line_feed() {
    let events = vec![
        MarkdownEvent::CodeBlockStart,
        MarkdownEvent::Text("a".to_string()),
        MarkdownEvent::HardBreak,
        MarkdownEvent::Text("b".to_string()),
        MarkdownEvent::CodeBlockEnd,
        MarkdownEvent::ParagraphStart,
        MarkdownEvent::Text("c".to_string()),
        MarkdownEvent::SoftBreak,
        MarkdownEvent::Text("d".to_string()),
        MarkdownEvent::ParagraphEnd,
    ];
    let doc = build_document(&events);

    assert_eq!(doc.content, "a\nb\nc d");
}

#[test]
fn test_heading_end_without_start_is_ignored() {
    let events = vec![
        MarkdownEvent::Text("body".to_string()),
        MarkdownEvent::HeadingEnd,
    ];
    let doc = build_document(&events);

    assert_eq!(doc.content, "body");
    assert!(doc.headings.is_empty());
}

#[test]
fn test_break_inside_heading_is_blank() {
    let events = vec![
        MarkdownEvent::Text("intro".to_string()),
        MarkdownEvent::HeadingStart(1),
        MarkdownEvent::Text("Two".to_string()),
        MarkdownEvent::SoftBreak,
        MarkdownEvent::Text("lines".to_string()),
        MarkdownEvent::HeadingEnd,
    ];
    let doc = build_document(&events);

    assert_eq!(doc.content, "intro\n\nTwo lines");
    assert_eq!(doc.headings[0].text, "Two lines");
    assert_eq!(doc.headings[0].char_offset, 7);
}

#[test]
fn test_last_heading_stays_inside_the_text() {
    let parser = MarkdownParser::new();
    let doc = parser.parse_content("text\n\n#\n");

    assert_eq!(doc.headings.len(), 1);
    assert_eq!(doc.headings[0].text, "");
    assert_eq!(doc.headings[0].char_offset, 7);
    assert_eq!(doc.content, "text\n\n\n");
}

#[test]
fn test_last_heading_keeps_its_own_whitespace() {
    let events = vec![
        MarkdownEvent::HeadingStart(1),
        MarkdownEvent::Text("A\u{a0}".to_string()),
        MarkdownEvent::HeadingEnd,
        MarkdownEvent::ParagraphStart,
        MarkdownEvent::Text(" ".to_string()),
        MarkdownEvent::ParagraphEnd,
    ];
    let doc = build_document(&events);

    assert_eq!(doc.content, "A\u{a0}");
    assert_eq!(doc.headings[0].text, "A\u{a0}");
    assert_eq!(doc.headings[0].char_offset, 0);
}

#[test]
fn test_headings_point_at_their_text() {
    let parser = MarkdownParser::new();
    let markdown = "intro\n\n# Üben\n\ntext\n\n## Zwei `x`\n\nmore\n\n### Ende";
    let doc = parser.parse_content(markdown);

    assert_eq!(doc.headings.len(), 3);
    for heading in &doc.headings {
        assert!(1 <= heading.level && heading.level <= 6);
        assert!(doc.content.is_char_boundary(heading.char_offset));
        assert!(doc.content[heading.char_offset..].starts_with(&heading.text));
    }
    assert!(doc.headings[0].char_offset < doc.headings[1].char_offset);
    assert!(doc.headings[1].char_offset < doc.headings[2].char_offset);
    assert!(!doc.content.ends_with(char::is_whitespace));
}
