//! Choice of a cut point near a target offset.
//!
//! A text is looked at as its UTF-8 bytes. Around the target offset lies a
//! window of a given radius; inside it a paragraph boundary is preferred to a
//! sentence boundary, a sentence boundary to a word boundary, and where the
//! window holds none of them the text is cut at the character boundary nearest
//! to the target.
use crate::text::{byte_len, text_bytes};
use vstd::prelude::*;
use vstd::string::*;
use vstd::utf8::*;

verus! {

broadcast use encode_utf8_valid_utf8;

/// ASCII whitespace: space, tab, line feed, form feed, carriage return.
pub open spec fn is_whitespace_byte(b: u8) -> bool {
    b == 0x20 || b == 0x09 || b == 0x0a || b == 0x0c || b == 0x0d
}

/// The marks that end a sentence: `.`, `?`, `!` and `;`.
pub open spec fn is_sentence_end_byte(b: u8) -> bool {
    b == 0x2e || b == 0x3f || b == 0x21 || b == 0x3b
}

/// The kinds of structural boundary, from the most to the least preferred.
#[derive(Clone, Copy, Debug, PartialEq, Eq, Structural)]
pub enum CutKind {
    Paragraph,
    Sentence,
    Word,
}

/// First offset of the search window around `target`.
pub open spec fn window_start(target: int, radius: int) -> int {
    if target >= radius {
        target - radius
    } else {
        0
    }
}

/// Last offset of the search window around `target`, in a text of `len` bytes.
pub open spec fn window_end(len: int, target: int, radius: int) -> int {
    if target + radius <= len {
        target + radius
    } else {
        len
    }
}

/// Whether cutting `bytes` at offset `p` cuts at a boundary of the given kind
/// that lies in the window `[lo, hi]`.
///
/// A paragraph is cut right after a double line feed, a sentence right after
/// its closing mark where whitespace or the end of the window follows, a word
/// right after a run of whitespace. The delimiter lies inside the window, and
/// `p` is a character boundary.
pub open spec fn is_cut(bytes: Seq<u8>, lo: int, hi: int, kind: CutKind, p: int) -> bool {
    &&& 0 <= lo < p <= hi <= bytes.len()
    &&& is_char_boundary(bytes, p)
    &&& match kind {
        CutKind::Paragraph => lo + 2 <= p && bytes[p - 2] == 0x0a && bytes[p - 1] == 0x0a,
        CutKind::Sentence => is_sentence_end_byte(bytes[p - 1]) && (p == hi || is_whitespace_byte(
            bytes[p],
        )),
        CutKind::Word => is_whitespace_byte(bytes[p - 1]) && (p == bytes.len()
            || !is_whitespace_byte(bytes[p])),
    }
}

/// Whether the window holds a boundary of the given kind.
pub open spec fn has_cut(bytes: Seq<u8>, lo: int, hi: int, kind: CutKind) -> bool {
    exists|p: int| is_cut(bytes, lo, hi, kind, p)
}

/// How far `p` lies from `target`.
pub open spec fn cut_distance(target: int, p: int) -> int {
    if p <= target {
        target - p
    } else {
        p - target
    }
}

/// Whether `p` is to be preferred to `q`, or is `q` itself: the one closer to
/// `target` wins, and of two equally close ones the one before `target`.
pub open spec fn at_least_as_near(target: int, p: int, q: int) -> bool {
    cut_distance(target, p) < cut_distance(target, q) || (cut_distance(target, p) == cut_distance(
        target,
        q,
    ) && p <= q)
}

/// Whether `p` is the preferred boundary of the given kind in the window.
pub open spec fn is_nearest_cut(
    bytes: Seq<u8>,
    lo: int,
    hi: int,
    kind: CutKind,
    target: int,
    p: int,
) -> bool {
    &&& is_cut(bytes, lo, hi, kind, p)
    &&& forall|q: int| #[trigger] is_cut(bytes, lo, hi, kind, q) ==> at_least_as_near(target, p, q)
}

/// Whether `p` is the character boundary of `bytes` that is nearest to
/// `target`, the earlier one of two equally near ones.
pub open spec fn is_hard_cut(bytes: Seq<u8>, target: int, p: int) -> bool {
    &&& 0 <= p <= bytes.len()
    &&& is_char_boundary(bytes, p)
    &&& forall|q: int|
        0 <= q <= bytes.len() && #[trigger] is_char_boundary(bytes, q) ==> at_least_as_near(
            target,
            p,
            q,
        )
}

/// Whether `p` is the cut that the priority policy selects for `target`:
/// the nearest paragraph boundary if the window has one, else the nearest
/// sentence boundary, else the nearest word boundary, else the hard cut.
pub open spec fn is_best_cut(bytes: Seq<u8>, target: int, radius: int, p: int) -> bool {
    let lo = window_start(target, radius);
    let hi = window_end(bytes.len() as int, target, radius);
    if has_cut(bytes, lo, hi, CutKind::Paragraph) {
        is_nearest_cut(bytes, lo, hi, CutKind::Paragraph, target, p)
    } else if has_cut(bytes, lo, hi, CutKind::Sentence) {
        is_nearest_cut(bytes, lo, hi, CutKind::Sentence, target, p)
    } else if has_cut(bytes, lo, hi, CutKind::Word) {
        is_nearest_cut(bytes, lo, hi, CutKind::Word, target, p)
    } else {
        is_hard_cut(bytes, target, p)
    }
}

/// The cut that the priority policy selects for `target`.
pub open spec fn best_cut(bytes: Seq<u8>, target: int, radius: int) -> int {
    choose|p: int| is_best_cut(bytes, target, radius, p)
}

/// The offset after an ASCII byte is a character boundary. The delimiters of
/// all three kinds are ASCII bytes, so a place that ends a paragraph, a
/// sentence or a word is never refused for lying inside a character.
pub proof fn lemma_boundary_after_ascii(bytes: Seq<u8>, p: int)
    requires
        valid_utf8(bytes),
        0 < p <= bytes.len(),
        bytes[p - 1] <= 0x7f,
    ensures
        is_char_boundary(bytes, p),
    decreases bytes.len(),
{
    let first = length_of_first_scalar(bytes);
    let rest = pop_first_scalar(bytes);
    if p == first {
        assert(is_char_boundary(rest, 0));
    } else if p > first {
        lemma_boundary_after_ascii(rest, p - first);
    }
}

/// Two offsets that are each at least as near as the other are the same.
pub proof fn lemma_nearest_is_unique(target: int, p: int, q: int)
    requires
        at_least_as_near(target, p, q),
        at_least_as_near(target, q, p),
    ensures
        p == q,
{
}

/// The policy selects at most one cut: whatever satisfies [`is_best_cut`] is
/// [`best_cut`].
pub proof fn lemma_best_cut_is_unique(bytes: Seq<u8>, target: int, radius: int, p: int)
    requires
        is_best_cut(bytes, target, radius, p),
    ensures
        p == best_cut(bytes, target, radius),
{
    let q = best_cut(bytes, target, radius);
    lemma_nearest_is_unique(target, p, q);
}

/// Every cut that the policy selects is a character boundary inside the text.
pub proof fn lemma_best_cut_is_boundary(bytes: Seq<u8>, target: int, radius: int, p: int)
    requires
        is_best_cut(bytes, target, radius, p),
    ensures
        0 <= p <= bytes.len(),
        is_char_boundary(bytes, p),
{
}

/// The preferred one of the offsets from `lo` to `n` that satisfy `f`.
pub open spec fn nearest_in(f: spec_fn(int) -> bool, target: int, lo: int, n: int) -> Option<int>
    decreases n - lo + 1,
{
    if n < lo {
        None
    } else {
        match nearest_in(f, target, lo, n - 1) {
            Some(b) => if f(n) && !at_least_as_near(target, b, n) {
                Some(n)
            } else {
                Some(b)
            },
            None => if f(n) {
                Some(n)
            } else {
                None
            },
        }
    }
}

/// [`nearest_in`] finds the preferred offset, where any satisfies `f`.
pub proof fn lemma_nearest_in(f: spec_fn(int) -> bool, target: int, lo: int, n: int)
    ensures
        match nearest_in(f, target, lo, n) {
            Some(b) => {
                &&& lo <= b <= n
                &&& f(b)
                &&& forall|q: int| lo <= q <= n && #[trigger] f(q) ==> at_least_as_near(target, b, q)
            },
            None => forall|q: int| lo <= q <= n ==> !#[trigger] f(q),
        },
    decreases n - lo + 1,
{
    if n >= lo {
        lemma_nearest_in(f, target, lo, n - 1);
    }
}

/// A window that has a boundary of some kind has a preferred one.
pub proof fn lemma_nearest_cut_exists(bytes: Seq<u8>, lo: int, hi: int, kind: CutKind, target: int)
    requires
        has_cut(bytes, lo, hi, kind),
    ensures
        exists|p: int| is_nearest_cut(bytes, lo, hi, kind, target, p),
{
    let f = |q: int| is_cut(bytes, lo, hi, kind, q);
    lemma_nearest_in(f, target, lo, hi);
    let witness = choose|p: int| is_cut(bytes, lo, hi, kind, p);
    assert(f(witness));
    let b = nearest_in(f, target, lo, hi)->0;
    assert forall|q: int| #[trigger] is_cut(bytes, lo, hi, kind, q) implies at_least_as_near(
        target,
        b,
        q,
    ) by {
        assert(f(q));
    }
    assert(is_nearest_cut(bytes, lo, hi, kind, target, b));
}

/// Every text has a character boundary that is nearest to `target`.
pub proof fn lemma_hard_cut_exists(bytes: Seq<u8>, target: int)
    requires
        valid_utf8(bytes),
    ensures
        exists|p: int| is_hard_cut(bytes, target, p),
{
    let f = |q: int| 0 <= q <= bytes.len() && is_char_boundary(bytes, q);
    lemma_nearest_in(f, target, 0, bytes.len() as int);
    assert(f(0));
    let b = nearest_in(f, target, 0, bytes.len() as int)->0;
    assert forall|q: int|
        0 <= q <= bytes.len() && #[trigger] is_char_boundary(bytes, q) implies at_least_as_near(
        target,
        b,
        q,
    ) by {
        assert(f(q));
    }
    assert(is_hard_cut(bytes, target, b));
}

/// The policy selects a cut for every target: [`best_cut`] satisfies
/// [`is_best_cut`].
pub proof fn lemma_best_cut_exists(bytes: Seq<u8>, target: int, radius: int)
    requires
        valid_utf8(bytes),
    ensures
        is_best_cut(bytes, target, radius, best_cut(bytes, target, radius)),
        0 <= best_cut(bytes, target, radius) <= bytes.len(),
        is_char_boundary(bytes, best_cut(bytes, target, radius)),
{
    let lo = window_start(target, radius);
    let hi = window_end(bytes.len() as int, target, radius);
    if has_cut(bytes, lo, hi, CutKind::Paragraph) {
        lemma_nearest_cut_exists(bytes, lo, hi, CutKind::Paragraph, target);
        let p = choose|p: int| is_nearest_cut(bytes, lo, hi, CutKind::Paragraph, target, p);
        assert(is_best_cut(bytes, target, radius, p));
    } else if has_cut(bytes, lo, hi, CutKind::Sentence) {
        lemma_nearest_cut_exists(bytes, lo, hi, CutKind::Sentence, target);
        let p = choose|p: int| is_nearest_cut(bytes, lo, hi, CutKind::Sentence, target, p);
        assert(is_best_cut(bytes, target, radius, p));
    } else if has_cut(bytes, lo, hi, CutKind::Word) {
        lemma_nearest_cut_exists(bytes, lo, hi, CutKind::Word, target);
        let p = choose|p: int| is_nearest_cut(bytes, lo, hi, CutKind::Word, target, p);
        assert(is_best_cut(bytes, target, radius, p));
    } else {
        lemma_hard_cut_exists(bytes, target);
        let p = choose|p: int| is_hard_cut(bytes, target, p);
        assert(is_best_cut(bytes, target, radius, p));
    }
}

fn is_whitespace(b: u8) -> (r: bool)
    ensures
        r == is_whitespace_byte(b),
{
    b == 0x20 || b == 0x09 || b == 0x0a || b == 0x0c || b == 0x0d
}

fn is_sentence_end(b: u8) -> (r: bool)
    ensures
        r == is_sentence_end_byte(b),
{
    b == 0x2e || b == 0x3f || b == 0x21 || b == 0x3b
}

/// Tests one offset of the window.
fn is_cut_at(content: &str, lo: usize, hi: usize, kind: CutKind, p: usize) -> (r: bool)
    requires
        lo < p <= hi <= content.spec_bytes().len(),
    ensures
        r == is_cut(content.spec_bytes(), lo as int, hi as int, kind, p as int),
{
    let bytes = content.as_bytes();
    if !content.is_char_boundary(p) {
        return false;
    }
    match kind {
        CutKind::Paragraph => p - lo >= 2 && bytes[p - 2] == 0x0a && bytes[p - 1] == 0x0a,
        CutKind::Sentence => is_sentence_end(bytes[p - 1]) && (p == hi || is_whitespace(bytes[p])),
        CutKind::Word => is_whitespace(bytes[p - 1]) && (p == bytes.len() || !is_whitespace(
            bytes[p],
        )),
    }
}

/// Whether `p` lies strictly nearer to `target` than `q`, the earlier of two
/// equally near offsets counting as the nearer.
fn is_nearer(target: usize, p: usize, q: usize) -> (r: bool)
    ensures
        r == (at_least_as_near(target as int, p as int, q as int) && p != q),
{
    let dp = if p <= target {
        target - p
    } else {
        p - target
    };
    let dq = if q <= target {
        target - q
    } else {
        q - target
    };
    dp < dq || (dp == dq && p < q)
}

/// The preferred boundary of one kind in the window `[lo, hi]`, if the window
/// has one.
fn nearest_cut(content: &str, target: usize, lo: usize, hi: usize, kind: CutKind) -> (r: Option<
    usize,
>)
    requires
        hi <= content.spec_bytes().len(),
    ensures
        match r {
            Some(p) => is_nearest_cut(
                content.spec_bytes(),
                lo as int,
                hi as int,
                kind,
                target as int,
                p as int,
            ),
            None => !has_cut(content.spec_bytes(), lo as int, hi as int, kind),
        },
{
    let ghost bytes = content.spec_bytes();
    let mut best: Option<usize> = None;
    if lo >= hi {
        return best;
    }
    let mut p: usize = lo;
    while p < hi
        invariant
            lo <= p <= hi <= bytes.len(),
            bytes == content.spec_bytes(),
            match best {
                Some(b) => {
                    &&& is_cut(bytes, lo as int, hi as int, kind, b as int)
                    &&& forall|q: int|
                        q <= p && #[trigger] is_cut(bytes, lo as int, hi as int, kind, q)
                            ==> at_least_as_near(target as int, b as int, q)
                },
                None => forall|q: int|
                    q <= p ==> !#[trigger] is_cut(bytes, lo as int, hi as int, kind, q),
            },
        decreases hi - p,
    {
        p = p + 1;
        if is_cut_at(content, lo, hi, kind, p) {
            match best {
                Some(b) => {
                    if is_nearer(target, p, b) {
                        best = Some(p);
                    }
                },
                None => {
                    best = Some(p);
                },
            }
        }
    }
    best
}

/// The character boundary nearest to `target`, the earlier one of two equally
/// near ones.
fn hard_cut(content: &str, target: usize) -> (cut: usize)
    ensures
        is_hard_cut(content.spec_bytes(), target as int, cut as int),
{
    let ghost bytes = content.spec_bytes();
    let len = byte_len(content);
    proof {
        is_char_boundary_start_end_of_seq(bytes);
    }
    if target >= len {
        return len;
    }
    let mut d: usize = 0;
    loop
        invariant
            bytes == content.spec_bytes(),
            len == bytes.len(),
            d <= target < len,
            forall|q: int|
                0 <= q <= len && cut_distance(target as int, q) < d ==> !#[trigger] is_char_boundary(
                    bytes,
                    q,
                ),
        decreases target - d,
    {
        if content.is_char_boundary(target - d) {
            return target - d;
        }
        if d <= len - target && content.is_char_boundary(target + d) {
            return target + d;
        }
        d = d + 1;
    }
}

/// Finds the best place near `target` to cut `content`.
///
/// The window reaches `radius` bytes to either side of `target`, as far as the
/// text goes. The result is a character boundary of `content`: the paragraph
/// boundary of the window nearest to `target`, or without one the nearest
/// sentence boundary, or without one the nearest word boundary, or without any
/// of them the character boundary nearest to `target`. Of two equally near
/// candidates the one before `target` is taken.
pub fn find_cut(content: &str, target: usize, radius: usize) -> (cut: usize)
    ensures
        is_best_cut(text_bytes(content@), target as int, radius as int, cut as int),
        cut == best_cut(text_bytes(content@), target as int, radius as int),
        cut <= text_bytes(content@).len(),
        is_char_boundary(text_bytes(content@), cut as int),
{
    let ghost bytes = content.spec_bytes();
    let len = byte_len(content);
    let lo = if target >= radius {
        target - radius
    } else {
        0
    };
    let hi = if target <= len && radius <= len - target {
        target + radius
    } else {
        len
    };
    let cut = match nearest_cut(content, target, lo, hi, CutKind::Paragraph) {
        Some(p) => p,
        None => match nearest_cut(content, target, lo, hi, CutKind::Sentence) {
            Some(p) => p,
            None => match nearest_cut(content, target, lo, hi, CutKind::Word) {
                Some(p) => p,
                None => hard_cut(content, target),
            },
        },
    };
    proof {
        lemma_best_cut_is_unique(bytes, target as int, radius as int, cut as int);
    }
    cut
}

} // verus!
