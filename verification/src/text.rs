//! Texts as sequences of characters and as UTF-8 bytes.
use vstd::prelude::*;
use vstd::string::*;
use vstd::utf8::*;

verus! {

broadcast use {encode_utf8_valid_utf8, encode_utf8_decode_utf8};

/// The bytes of a text, as UTF-8.
pub open spec fn text_bytes(text: Seq<char>) -> Seq<u8> {
    encode_utf8(text)
}

/// Whether a text ends with a line feed.
pub open spec fn ends_with_newline_spec(text: Seq<char>) -> bool {
    text.len() > 0 && text.last() == '\n'
}

/// Whether `char::is_whitespace` holds of a character, that is, whether
/// Unicode counts the character as `White_Space`.
pub uninterp spec fn is_whitespace_char(c: char) -> bool;

/// A text without the whitespace at its end.
pub open spec fn trim_end_spec(text: Seq<char>) -> Seq<char>
    decreases text.len(),
{
    if text.len() > 0 && is_whitespace_char(text.last()) {
        trim_end_spec(text.drop_last())
    } else {
        text
    }
}

/// Whether a character is a decimal digit.
pub open spec fn is_digit(c: char) -> bool {
    '0' <= c <= '9'
}

/// The number that a run of decimal digits spells.
pub open spec fn digits_value(digits: Seq<char>) -> nat
    decreases digits.len(),
{
    if digits.len() == 0 {
        0
    } else {
        (digits_value(digits.drop_last()) * 10 + (digits.last() as u32 - '0' as u32)) as nat
    }
}

/// The number that a text spells in decimal notation: the text is a run of
/// one or more digits, before which a `+` may stand, and the number fits a
/// `usize`. Any other text, the empty one too, spells no number.
pub open spec fn parse_decimal(text: Seq<char>) -> Option<usize> {
    let digits = if text.len() > 0 && text[0] == '+' {
        text.drop_first()
    } else {
        text
    };
    if digits.len() > 0 && (forall|i: int| 0 <= i < digits.len() ==> is_digit(#[trigger] digits[i]))
        && digits_value(digits) <= usize::MAX {
        Some(digits_value(digits) as usize)
    } else {
        None
    }
}

/// The bytes of two texts in a row are the bytes of the first, then the bytes
/// of the second.
pub proof fn lemma_bytes_of_concat(a: Seq<char>, b: Seq<char>)
    ensures
        text_bytes(a + b) == text_bytes(a) + text_bytes(b),
    decreases a.len(),
{
    if a.len() == 0 {
        assert(a + b =~= b);
    } else {
        assert((a + b).drop_first() =~= a.drop_first() + b);
        lemma_bytes_of_concat(a.drop_first(), b);
    }
}

/// The encoding of a character is not empty, and it ends with the byte `0x0a`
/// exactly when the character is the line feed.
proof fn lemma_last_byte_of_char(c: char)
    ensures
        encode_scalar(c as u32).len() >= 1,
        encode_scalar(c as u32).last() == 0x0a <==> c == '\n',
{
    let s = c as u32;
    char_is_scalar(c);
    if has_width_1_encoding(s) {
        assert((s & 0x7F) as u8 == 0x0a <==> s == 0x0a) by (bit_vector)
            requires
                s <= 0x7F,
        ;
    } else {
        assert((0x80 | (s & 0x3F) as u8) != 0x0a) by (bit_vector);
    }
}

/// A text that is not empty has bytes, and its last byte is `0x0a` exactly
/// when its last character is the line feed.
pub proof fn lemma_last_byte(text: Seq<char>)
    requires
        text.len() > 0,
    ensures
        text_bytes(text).len() > 0,
        text_bytes(text).last() == 0x0a <==> text.last() == '\n',
{
    let init = text.drop_last();
    let last = seq![text.last()];
    assert(text =~= init + last);
    lemma_bytes_of_concat(init, last);
    assert(text_bytes(last) =~= encode_scalar(text.last() as u32)) by {
        reveal_with_fuel(encode_utf8, 2);
    }
    lemma_last_byte_of_char(text.last());
}

/// Whatever is a prefix of a text, does not end with whitespace and leaves
/// only whitespace behind is the text without the whitespace at its end.
pub proof fn lemma_trim_end(text: Seq<char>, kept: Seq<char>)
    requires
        kept.len() <= text.len(),
        kept == text.take(kept.len() as int),
        kept.len() > 0 ==> !is_whitespace_char(kept.last()),
        forall|i: int| kept.len() <= i < text.len() ==> is_whitespace_char(#[trigger] text[i]),
    ensures
        kept == trim_end_spec(text),
    decreases text.len(),
{
    if kept.len() == text.len() {
        assert(kept =~= text);
    } else {
        assert(kept =~= text.drop_last().take(kept.len() as int));
        lemma_trim_end(text.drop_last(), kept);
    }
}

/// Length of a text in bytes.
pub fn byte_len(content: &str) -> (len: usize)
    ensures
        len == text_bytes(content@).len(),
{
    content.as_bytes().len()
}

/// Whether a text ends with a line feed.
pub fn ends_with_newline(text: &str) -> (r: bool)
    ensures
        r == ends_with_newline_spec(text@),
{
    let bytes = text.as_bytes();
    let len = bytes.len();
    proof {
        if text@.len() > 0 {
            lemma_last_byte(text@);
        }
    }
    len > 0 && bytes[len - 1] == 0x0a
}

/// `str::trim_end`: the text without its trailing whitespace, where
/// whitespace is what `char::is_whitespace` says. The result is a prefix of
/// the text that does not end with whitespace, and what it leaves out is
/// whitespace throughout.
#[verifier::external_body]
fn trim_end(text: &str) -> (kept: &str)
    ensures
        kept@.len() <= text@.len(),
        kept@ == text@.take(kept@.len() as int),
        kept@.len() > 0 ==> !is_whitespace_char(kept@.last()),
        forall|i: int| kept@.len() <= i < text@.len() ==> is_whitespace_char(#[trigger] text@[i]),
{
    text.trim_end()
}

/// `str::parse::<usize>`: the number that the text spells in decimal
/// notation, an optional `+` and then digits only, if it fits a `usize`; no
/// number for a text that is empty, holds any other character, or spells a
/// number that is too large.
#[verifier::external_body]
pub(crate) fn parse_usize(text: &str) -> (value: Option<usize>)
    ensures
        value == parse_decimal(text@),
{
    text.parse::<usize>().ok()
}

/// The text without the whitespace at its end.
pub fn trimmed_end(text: &str) -> (kept: String)
    ensures
        kept@ == trim_end_spec(text@),
{
    let kept = trim_end(text);
    proof {
        lemma_trim_end(text@, kept@);
    }
    kept.to_owned()
}

/// The text of `content` between two of its character boundaries.
pub(crate) fn slice_text(content: &str, start: usize, end: usize) -> (piece: String)
    requires
        start <= end <= text_bytes(content@).len(),
        is_char_boundary(text_bytes(content@), start as int),
        is_char_boundary(text_bytes(content@), end as int),
    ensures
        piece@ == decode_utf8(text_bytes(content@).subrange(start as int, end as int)),
        text_bytes(piece@) == text_bytes(content@).subrange(start as int, end as int),
{
    let ghost bytes = text_bytes(content@);
    let (head, _) = content.split_at(end);
    proof {
        let head_bytes = head.spec_bytes();
        if start == end {
            is_char_boundary_start_end_of_seq(head_bytes);
        } else {
            is_char_boundary_iff_not_is_continuation_byte(bytes, start as int);
            is_char_boundary_iff_not_is_continuation_byte(head_bytes, start as int);
        }
    }
    let (_, piece) = head.split_at(start);
    assert(piece.spec_bytes() =~= bytes.subrange(start as int, end as int));
    piece.to_owned()
}

} // verus!
