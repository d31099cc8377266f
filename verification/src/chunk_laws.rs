//! What holds of the chunks of every document.
use crate::boundary::{best_cut, cut_distance, lemma_best_cut_exists, window_start};
use crate::chunker::{
    chunk_end, chunk_id, chunk_spans_spec, cut_radius, decimal_text, digit_char, is_chain,
    lemma_boundary_at_or_after, lemma_chunk_end, lemma_next_start, next_start, spans_from, Span,
};
use crate::text::{digits_value, is_digit};
use vstd::prelude::*;
use vstd::utf8::*;

verus! {

/// The chunks from one that begins at a character boundary inside the text
/// form a chain whose first span begins there.
pub proof fn lemma_spans_from(bytes: Seq<u8>, chunk_size: int, chunk_overlap: int, start: int)
    requires
        valid_utf8(bytes),
        0 <= chunk_overlap < chunk_size,
        0 <= start < bytes.len(),
        is_char_boundary(bytes, start),
    ensures
        spans_from(bytes, chunk_size, chunk_overlap, start).len() >= 1,
        spans_from(bytes, chunk_size, chunk_overlap, start)[0].start == start,
        is_chain(bytes, chunk_overlap, spans_from(bytes, chunk_size, chunk_overlap, start)),
    decreases bytes.len() - start,
{
    let end = chunk_end(bytes, chunk_size, start);
    let next = next_start(bytes, chunk_overlap, start, end);
    lemma_chunk_end(bytes, chunk_size, start);
    lemma_next_start(bytes, chunk_overlap, start, end);
    let spans = spans_from(bytes, chunk_size, chunk_overlap, start);
    if end >= bytes.len() {
        assert(spans =~= seq![Span { start, end }]);
    } else {
        let rest = spans_from(bytes, chunk_size, chunk_overlap, next);
        lemma_spans_from(bytes, chunk_size, chunk_overlap, next);
        assert forall|k: int| 0 <= k < spans.len() implies {
            &&& 0 <= (#[trigger] spans[k]).start < spans[k].end <= bytes.len()
            &&& is_char_boundary(bytes, spans[k].start)
            &&& is_char_boundary(bytes, spans[k].end)
        } by {
            if k > 0 {
                assert(spans[k] == rest[k - 1]);
            }
        }
        assert forall|k: int| 0 <= k < spans.len() - 1 implies {
            &&& (#[trigger] spans[k]).start < spans[k + 1].start <= spans[k].end
            &&& spans[k].end - spans[k + 1].start <= chunk_overlap
            &&& spans[k].end < bytes.len()
        } by {
            if k > 0 {
                assert(spans[k] == rest[k - 1]);
            }
        }
    }
}

/// The chunks of every text form a chain, and the first one begins where the
/// text begins. In particular no chunk begins or ends inside
/// a character, and none is empty.
pub proof fn lemma_spans_are_well_formed(bytes: Seq<u8>, chunk_size: int, chunk_overlap: int)
    requires
        valid_utf8(bytes),
        0 <= chunk_overlap < chunk_size,
    ensures
        is_chain(bytes, chunk_overlap, chunk_spans_spec(bytes, chunk_size, chunk_overlap)),
        bytes.len() == 0 <==> chunk_spans_spec(bytes, chunk_size, chunk_overlap).len() == 0,
        bytes.len() > 0 ==> chunk_spans_spec(bytes, chunk_size, chunk_overlap)[0].start == 0,
{
    if bytes.len() > 0 {
        lemma_spans_from(bytes, chunk_size, chunk_overlap, 0);
    }
}

/// Every byte of the text lies in some chunk: the chunks leave no gap.
pub proof fn lemma_coverage(bytes: Seq<u8>, chunk_size: int, chunk_overlap: int, p: int)
    requires
        valid_utf8(bytes),
        0 <= chunk_overlap < chunk_size,
        0 <= p < bytes.len(),
    ensures
        exists|k: int|
            0 <= k < chunk_spans_spec(bytes, chunk_size, chunk_overlap).len() && (
            #[trigger] chunk_spans_spec(bytes, chunk_size, chunk_overlap)[k]).start <= p
                < chunk_spans_spec(bytes, chunk_size, chunk_overlap)[k].end,
{
    let spans = chunk_spans_spec(bytes, chunk_size, chunk_overlap);
    lemma_spans_are_well_formed(bytes, chunk_size, chunk_overlap);
    lemma_chain_covers(bytes, chunk_overlap, spans, p, 0);
}

/// In a chain, a byte that lies at or after the beginning of span `k` lies in
/// span `k` or in a later one.
proof fn lemma_chain_covers(bytes: Seq<u8>, chunk_overlap: int, spans: Seq<Span>, p: int, k: int)
    requires
        is_chain(bytes, chunk_overlap, spans),
        0 <= k < spans.len(),
        spans[k].start <= p < bytes.len(),
    ensures
        exists|j: int| 0 <= j < spans.len() && (#[trigger] spans[j]).start <= p < spans[j].end,
    decreases spans.len() - k,
{
    if k == spans.len() - 1 {
        assert(spans[k] == spans.last());
    } else if spans[k + 1].start <= p {
        lemma_chain_covers(bytes, chunk_overlap, spans, p, k + 1);
    } else {
        assert(spans[k].start <= p < spans[k].end);
    }
}

/// Two consecutive chunks share at most `chunk_overlap` bytes and never a
/// negative number of them, fewer than the earlier chunk holds, and fewer than
/// the later chunk holds exactly when the later chunk ends after the earlier
/// one (which [`lemma_chunks_advance`] shows for every text where the stride
/// is not smaller than the radius).
pub proof fn lemma_overlap_bound(bytes: Seq<u8>, chunk_size: int, chunk_overlap: int, k: int)
    requires
        valid_utf8(bytes),
        0 <= chunk_overlap < chunk_size,
        0 <= k < chunk_spans_spec(bytes, chunk_size, chunk_overlap).len() - 1,
    ensures
        ({
            let spans = chunk_spans_spec(bytes, chunk_size, chunk_overlap);
            let shared = spans[k].end - spans[k + 1].start;
            &&& 0 <= shared <= chunk_overlap
            &&& shared < spans[k].end - spans[k].start
            &&& shared < spans[k + 1].end - spans[k + 1].start <==> spans[k].end < spans[k + 1].end
        }),
{
    let spans = chunk_spans_spec(bytes, chunk_size, chunk_overlap);
    lemma_spans_are_well_formed(bytes, chunk_size, chunk_overlap);
    assert(spans[k].start < spans[k + 1].start <= spans[k].end);
}

/// After every offset inside a text a character boundary follows within four
/// bytes.
pub proof fn lemma_boundary_within_four(bytes: Seq<u8>, p: int)
    requires
        valid_utf8(bytes),
        0 <= p < bytes.len(),
    ensures
        exists|b: int| p < b <= p + 4 && b <= bytes.len() && #[trigger] is_char_boundary(bytes, b),
    decreases bytes.len(),
{
    let first = length_of_first_scalar(bytes);
    let rest = pop_first_scalar(bytes);
    if p < first {
        assert(is_char_boundary(rest, 0));
        assert(is_char_boundary(bytes, first));
    } else {
        lemma_boundary_within_four(rest, p - first);
        let b = choose|b: int|
            p - first < b <= p - first + 4 && b <= rest.len() && #[trigger] is_char_boundary(rest, b);
        assert(is_char_boundary(bytes, b + first));
    }
}

/// Where the stride of the window, `chunk_size - chunk_overlap`, is not
/// smaller than the radius in which cuts are looked for, every chunk ends
/// after the one before it.
pub proof fn lemma_chunks_advance(bytes: Seq<u8>, chunk_size: int, chunk_overlap: int, k: int)
    requires
        valid_utf8(bytes),
        0 <= chunk_overlap < chunk_size,
        chunk_overlap + cut_radius(chunk_size) <= chunk_size,
        0 <= k < chunk_spans_spec(bytes, chunk_size, chunk_overlap).len() - 1,
    ensures
        chunk_spans_spec(bytes, chunk_size, chunk_overlap)[k].end < chunk_spans_spec(
            bytes,
            chunk_size,
            chunk_overlap,
        )[k + 1].end,
{
    if bytes.len() > 0 {
        lemma_spans_advance_from(bytes, chunk_size, chunk_overlap, 0, k);
    }
}

/// [`lemma_chunks_advance`] for the chunks from the one that begins at
/// `start`.
proof fn lemma_spans_advance_from(
    bytes: Seq<u8>,
    chunk_size: int,
    chunk_overlap: int,
    start: int,
    k: int,
)
    requires
        valid_utf8(bytes),
        0 <= chunk_overlap < chunk_size,
        chunk_overlap + cut_radius(chunk_size) <= chunk_size,
        0 <= start < bytes.len(),
        is_char_boundary(bytes, start),
        0 <= k < spans_from(bytes, chunk_size, chunk_overlap, start).len() - 1,
    ensures
        spans_from(bytes, chunk_size, chunk_overlap, start)[k].end < spans_from(
            bytes,
            chunk_size,
            chunk_overlap,
            start,
        )[k + 1].end,
    decreases bytes.len() - start,
{
    let end = chunk_end(bytes, chunk_size, start);
    let next = next_start(bytes, chunk_overlap, start, end);
    lemma_chunk_end(bytes, chunk_size, start);
    lemma_next_start(bytes, chunk_overlap, start, end);
    let spans = spans_from(bytes, chunk_size, chunk_overlap, start);
    let rest = spans_from(bytes, chunk_size, chunk_overlap, next);
    assert(spans =~= seq![Span { start, end }] + rest);
    lemma_spans_from(bytes, chunk_size, chunk_overlap, next);
    if k == 0 {
        lemma_chunk_end_advances(bytes, chunk_size, chunk_overlap, end, next);
    } else {
        lemma_spans_advance_from(bytes, chunk_size, chunk_overlap, next, k - 1);
    }
}

/// A chunk that begins at most `chunk_overlap` bytes before a character
/// boundary `end` inside the text ends after `end`, where the stride is not
/// smaller than the radius.
proof fn lemma_chunk_end_advances(
    bytes: Seq<u8>,
    chunk_size: int,
    chunk_overlap: int,
    end: int,
    next: int,
)
    requires
        valid_utf8(bytes),
        0 <= chunk_overlap < chunk_size,
        chunk_overlap + cut_radius(chunk_size) <= chunk_size,
        0 <= next <= end < bytes.len(),
        end - next <= chunk_overlap,
        is_char_boundary(bytes, end),
    ensures
        end < chunk_end(bytes, chunk_size, next),
{
    let target = next + chunk_size;
    let radius = cut_radius(chunk_size);
    if target < bytes.len() {
        let cut = best_cut(bytes, target, radius);
        lemma_best_cut_exists(bytes, target, radius);
        lemma_boundary_at_or_after(bytes, target);
        if cut > next {
            // A cut at a paragraph, a sentence or a word lies inside the
            // window, which begins at `end` or after it.
            assert(window_start(target, radius) >= end);
            // A hard cut lies nearer to the target than `end` does, for a
            // character boundary follows `end` within four bytes.
            lemma_boundary_within_four(bytes, end);
            let b = choose|b: int|
                end < b <= end + 4 && b <= bytes.len() && #[trigger] is_char_boundary(bytes, b);
            assert(cut_distance(target, b) < cut_distance(target, end));
        }
    }
}

/// No chunk is longer than `chunk_size` and the radius together: a cut is
/// looked for within the radius of the aim, and a character boundary is never
/// more than three bytes away.
pub proof fn lemma_chunk_length_bound(bytes: Seq<u8>, chunk_size: int, chunk_overlap: int, k: int)
    requires
        valid_utf8(bytes),
        0 <= chunk_overlap < chunk_size,
        0 <= k < chunk_spans_spec(bytes, chunk_size, chunk_overlap).len(),
    ensures
        ({
            let span = chunk_spans_spec(bytes, chunk_size, chunk_overlap)[k];
            span.end - span.start <= chunk_size + cut_radius(chunk_size)
        }),
{
    lemma_spans_length_bound_from(bytes, chunk_size, chunk_overlap, 0, k);
}

/// [`lemma_chunk_length_bound`] for the chunks from the one that begins at
/// `start`.
proof fn lemma_spans_length_bound_from(
    bytes: Seq<u8>,
    chunk_size: int,
    chunk_overlap: int,
    start: int,
    k: int,
)
    requires
        valid_utf8(bytes),
        0 <= chunk_overlap < chunk_size,
        0 <= start < bytes.len(),
        is_char_boundary(bytes, start),
        0 <= k < spans_from(bytes, chunk_size, chunk_overlap, start).len(),
    ensures
        ({
            let span = spans_from(bytes, chunk_size, chunk_overlap, start)[k];
            span.end - span.start <= chunk_size + cut_radius(chunk_size)
        }),
    decreases bytes.len() - start,
{
    let end = chunk_end(bytes, chunk_size, start);
    let next = next_start(bytes, chunk_overlap, start, end);
    lemma_chunk_end(bytes, chunk_size, start);
    lemma_next_start(bytes, chunk_overlap, start, end);
    let spans = spans_from(bytes, chunk_size, chunk_overlap, start);
    if k == 0 {
        let target = start + chunk_size;
        let radius = cut_radius(chunk_size);
        if target < bytes.len() {
            lemma_best_cut_exists(bytes, target, radius);
            lemma_boundary_at_or_after(bytes, target);
            lemma_boundary_within_four(bytes, target - 1);
            let b = choose|b: int|
                target - 1 < b <= target + 3 && b <= bytes.len() && #[trigger] is_char_boundary(
                    bytes,
                    b,
                );
        }
    } else {
        let rest = spans_from(bytes, chunk_size, chunk_overlap, next);
        assert(spans =~= seq![Span { start, end }] + rest);
        lemma_spans_length_bound_from(bytes, chunk_size, chunk_overlap, next, k - 1);
    }
}

/// A text that is not empty and no longer than `chunk_size` becomes exactly
/// one chunk, which holds all of it.
pub proof fn lemma_small_text_is_one_chunk(bytes: Seq<u8>, chunk_size: int, chunk_overlap: int)
    requires
        0 < bytes.len() <= chunk_size,
    ensures
        chunk_spans_spec(bytes, chunk_size, chunk_overlap) == seq![
            Span { start: 0, end: bytes.len() as int },
        ],
{
}

/// An empty text has no chunks.
pub proof fn lemma_empty_text_has_no_chunks(bytes: Seq<u8>, chunk_size: int, chunk_overlap: int)
    requires
        bytes.len() == 0,
    ensures
        chunk_spans_spec(bytes, chunk_size, chunk_overlap) == Seq::<Span>::empty(),
{
}

/// The decimal notation of a number is a run of one or more digits, and it
/// spells the number.
pub proof fn lemma_decimal_text(n: nat)
    ensures
        decimal_text(n).len() >= 1,
        forall|i: int| 0 <= i < decimal_text(n).len() ==> is_digit(#[trigger] decimal_text(n)[i]),
        digits_value(decimal_text(n)) == n,
    decreases n,
{
    let text = decimal_text(n);
    let d = (n % 10) as int;
    assert(is_digit(digit_char(d)) && digit_char(d) as u32 - '0' as u32 == d) by {
        assert(d == 0 || d == 1 || d == 2 || d == 3 || d == 4 || d == 5 || d == 6 || d == 7 || d
            == 8 || d == 9);
    }
    if n < 10 {
        reveal_with_fuel(digits_value, 2);
    } else {
        lemma_decimal_text(n / 10);
        assert(text.drop_last() =~= decimal_text(n / 10));
    }
}

/// Identifiers are unique: two chunks have the same identifier only if they
/// have the same source and the same number.
pub proof fn lemma_chunk_ids_are_unique(
    source_a: Seq<char>,
    index_a: nat,
    source_b: Seq<char>,
    index_b: nat,
)
    requires
        chunk_id(source_a, index_a) == chunk_id(source_b, index_b),
    ensures
        source_a == source_b,
        index_a == index_b,
{
    let id_a = chunk_id(source_a, index_a);
    let id_b = chunk_id(source_b, index_b);
    let digits_a = decimal_text(index_a);
    let digits_b = decimal_text(index_b);
    lemma_decimal_text(index_a);
    lemma_decimal_text(index_b);
    assert(id_a.len() == source_a.len() + 1 + digits_a.len());
    if source_a.len() > source_b.len() {
        assert(id_b[source_a.len() as int] == digits_b[source_a.len() - source_b.len() - 1]);
    }
    if source_b.len() > source_a.len() {
        assert(id_a[source_b.len() as int] == digits_a[source_b.len() - source_a.len() - 1]);
    }
    assert(source_a =~= id_a.subrange(0, source_a.len() as int));
    assert(digits_a =~= id_a.subrange(source_a.len() as int + 1, id_a.len() as int));
    assert(digits_b =~= id_b.subrange(source_b.len() as int + 1, id_b.len() as int));
}

} // verus!
