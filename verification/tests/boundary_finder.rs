use ingestion::boundary::find_cut;

#[test]
fn test_paragraph_wins_over_nearer_sentence() {
    // The sentence ends at 4, one byte from the target; the paragraph ends at 10.
    assert_eq!(find_cut("one. two\n\nthree four", 5, 6), 10);
}

#[test]
fn test_sentence_wins_over_nearer_word() {
    // Words end at 5 and 9, the sentence at 4.
    assert_eq!(find_cut("one. two three", 6, 4), 4);
}

#[test]
fn test_sentence_cut_follows_the_mark() {
    assert_eq!(find_cut("Stop! Go on", 6, 3), 5);
    assert_eq!(find_cut("Why? Because", 6, 3), 4);
    assert_eq!(find_cut("first; second", 8, 4), 6);
}

#[test]
fn test_sentence_at_end_of_window() {
    // The mark is the last byte of the window [2, 4]; what follows is not looked at.
    assert_eq!(find_cut("abc.def", 3, 1), 4);
}

#[test]
fn test_mark_inside_a_word_is_no_sentence_end() {
    // The window [1, 7] ends after the mark's follower, which is no whitespace.
    assert_eq!(find_cut("ab.cdefgh", 4, 3), 4);
}

#[test]
fn test_nearest_word_boundary() {
    // Word boundaries of the window [5, 11] lie at 6 and 11.
    assert_eq!(find_cut("alpha beta gamma", 8, 3), 6);
    assert_eq!(find_cut("alpha beta gamma", 9, 3), 11);
}

#[test]
fn test_word_cut_follows_the_whole_run() {
    assert_eq!(find_cut("ab   cd", 3, 3), 5);
}

#[test]
fn test_tie_goes_to_the_earlier_boundary() {
    // Word boundaries at 3 and 7, both two bytes from the target.
    assert_eq!(find_cut("ab cde fg", 5, 3), 3);
}

#[test]
fn test_hard_cut_at_target() {
    assert_eq!(find_cut("abcdefghij", 5, 2), 5);
    assert_eq!(find_cut("abcdefghij", 0, 0), 0);
}

#[test]
fn test_hard_cut_moves_to_character_boundary() {
    // The euro sign takes the bytes 2, 3 and 4.
    let text = "ab\u{20ac}cd";
    assert_eq!(find_cut(text, 3, 0), 2);
    assert_eq!(find_cut(text, 4, 0), 5);
    assert_eq!(find_cut(text, 3, 1), 2);
}

#[test]
fn test_hard_cut_tie_inside_four_byte_character() {
    // The emoji takes the bytes 1 to 4; 1 and 5 are equally far from 3.
    let text = "a\u{1f600}b";
    assert_eq!(find_cut(text, 3, 0), 1);
    assert_eq!(find_cut(text, 2, 0), 1);
    assert_eq!(find_cut(text, 4, 0), 5);
}

#[test]
fn test_target_beyond_the_text() {
    assert_eq!(find_cut("abc", 10, 2), 3);
    assert_eq!(find_cut("", 0, 5), 0);
    assert_eq!(find_cut("", 7, 5), 0);
    // The window [6, 11] reaches back into the text and finds the word boundary.
    assert_eq!(find_cut("ab cd ef gh", 14, 8), 9);
}

#[test]
fn test_radius_larger_than_text() {
    assert_eq!(find_cut("one two", 3, usize::MAX), 4);
    assert_eq!(find_cut("one two", usize::MAX, usize::MAX), 4);
}

#[test]
fn test_cut_is_always_a_character_boundary() {
    let text = "na\u{ef}ve caf\u{e9}. \u{4f60}\u{597d} \u{1f600}\u{1f600}\n\nfin";
    for target in 0..text.len() + 3 {
        for radius in 0..6 {
            let cut = find_cut(text, target, radius);
            assert!(cut <= text.len());
            assert!(text.is_char_boundary(cut));
        }
    }
}
