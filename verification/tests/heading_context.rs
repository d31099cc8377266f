use ingestion::heading_index::HeadingIndex;
use ingestion::HeadingInfo;

fn heading(level: u32, text: &str, char_offset: usize) -> HeadingInfo {
    HeadingInfo { level, text: text.to_string(), char_offset }
}

#[test]
fn test_heading_attribution() {
    let headings = vec![heading(1, "A", 0), heading(2, "B", 300)];
    let index = HeadingIndex::new(&headings);

    assert_eq!(index.context_at(310), Some("A > B".to_string()));
    assert_eq!(index.context_at(5), Some("A".to_string()));
    assert_eq!(index.context_at(0), Some("A".to_string()));
    assert_eq!(index.context_at(300), Some("A > B".to_string()));
    assert_eq!(index.context_at(299), Some("A".to_string()));
}

#[test]
fn test_no_heading_before_offset() {
    let headings = vec![heading(1, "A", 10), heading(2, "B", 300)];
    let index = HeadingIndex::new(&headings);

    assert_eq!(index.context_at(5), None);
    assert_eq!(index.context_at(9), None);
    assert_eq!(index.context_at(10), Some("A".to_string()));
}

#[test]
fn test_no_headings_at_all() {
    let headings = Vec::new();
    let index = HeadingIndex::new(&headings);

    assert_eq!(index.context_at(0), None);
    assert_eq!(index.context_at(1000), None);
}

#[test]
fn test_breadcrumb_is_the_ancestor_chain() {
    let headings = vec![
        heading(1, "Top Level", 0),
        heading(2, "Second Level", 30),
        heading(3, "Third Level", 60),
        heading(2, "Another Second Level", 90),
        heading(3, "Deep", 120),
    ];
    let index = HeadingIndex::new(&headings);

    assert_eq!(index.context_at(70), Some("Top Level > Second Level > Third Level".to_string()));
    assert_eq!(index.context_at(95), Some("Top Level > Another Second Level".to_string()));
    assert_eq!(
        index.context_at(500),
        Some("Top Level > Another Second Level > Deep".to_string())
    );
}

#[test]
fn test_breadcrumb_skips_missing_levels() {
    let headings = vec![heading(1, "A", 0), heading(4, "D", 10), heading(3, "C", 20)];
    let index = HeadingIndex::new(&headings);

    assert_eq!(index.context_at(15), Some("A > D".to_string()));
    assert_eq!(index.context_at(25), Some("A > C".to_string()));
}

#[test]
fn test_heading_without_ancestor() {
    let headings = vec![heading(2, "B", 0), heading(2, "C", 10), heading(1, "A", 20)];
    let index = HeadingIndex::new(&headings);

    assert_eq!(index.context_at(5), Some("B".to_string()));
    assert_eq!(index.context_at(15), Some("C".to_string()));
    assert_eq!(index.context_at(25), Some("A".to_string()));
}

#[test]
fn test_headings_at_the_same_offset() {
    let headings = vec![heading(1, "A", 0), heading(2, "B", 0)];
    let index = HeadingIndex::new(&headings);

    assert_eq!(index.context_at(0), Some("A > B".to_string()));
}
