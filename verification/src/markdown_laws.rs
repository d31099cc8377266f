//! What holds of every document that is built from markdown events.
use crate::markdown::{
    close_heading, document_of, heading_levels_in_range, kept_bytes, run, step, BuilderState,
    MarkdownEventView,
};
use crate::text::{lemma_bytes_of_concat, text_bytes, trim_end_spec};
use crate::types::HeadingView;
use vstd::prelude::*;
use vstd::utf8::*;

verus! {

broadcast use {encode_utf8_valid_utf8, encode_utf8_decode_utf8};

/// Whether the headings stand on lines of their own in what has been
/// gathered: the offset of each is a character boundary of the text at which
/// the bytes of its own text stand, a line feed follows them, and the next
/// heading begins after that.
pub open spec fn headings_are_placed(content: Seq<char>, headings: Seq<HeadingView>) -> bool {
    let bytes = text_bytes(content);
    &&& forall|i: int, j: int|
        0 <= i < j < headings.len() ==> (#[trigger] headings[i]).char_offset + text_bytes(
            headings[i].text,
        ).len() < (#[trigger] headings[j]).char_offset
    &&& forall|i: int|
        0 <= i < headings.len() ==> {
            let heading = #[trigger] headings[i];
            let end = heading.char_offset + text_bytes(heading.text).len();
            &&& end < bytes.len()
            &&& is_char_boundary(bytes, heading.char_offset as int)
            &&& bytes.subrange(heading.char_offset as int, end) == text_bytes(heading.text)
            &&& bytes[end] == 0x0a
        }
}

/// Whether every heading has a depth from 1 to 6.
pub open spec fn heading_depths_in_range(headings: Seq<HeadingView>) -> bool {
    forall|i: int| 0 <= i < headings.len() ==> 1 <= (#[trigger] headings[i]).level <= 6
}

/// Where two texts stand in a row, the second begins at a character boundary,
/// and the boundaries of the first are boundaries still.
pub proof fn lemma_boundaries_of_concat(a: Seq<char>, b: Seq<char>, at: int)
    requires
        0 <= at <= text_bytes(a).len(),
        is_char_boundary(text_bytes(a), at),
    ensures
        is_char_boundary(text_bytes(a + b), at),
        is_char_boundary(text_bytes(a + b), text_bytes(a).len() as int),
{
    let first = text_bytes(a);
    let second = text_bytes(b);
    let both = text_bytes(a + b);
    lemma_bytes_of_concat(a, b);
    is_char_boundary_start_end_of_seq(first);
    is_char_boundary_start_end_of_seq(both);
    if second.len() > 0 {
        is_char_boundary_start_end_of_seq(second);
        is_char_boundary_iff_not_is_continuation_byte(second, 0);
        is_char_boundary_iff_not_is_continuation_byte(both, first.len() as int);
    }
    if at < first.len() {
        is_char_boundary_iff_not_is_continuation_byte(first, at);
        is_char_boundary_iff_not_is_continuation_byte(both, at);
    }
}

/// Headings that are placed in a text are placed in every text that begins
/// with it.
proof fn lemma_placed_in_longer_text(content: Seq<char>, added: Seq<char>, headings: Seq<HeadingView>)
    requires
        headings_are_placed(content, headings),
    ensures
        headings_are_placed(content + added, headings),
{
    let bytes = text_bytes(content);
    let longer = text_bytes(content + added);
    lemma_bytes_of_concat(content, added);
    assert forall|i: int| 0 <= i < headings.len() implies {
        let heading = #[trigger] headings[i];
        let end = heading.char_offset + text_bytes(heading.text).len();
        &&& end < longer.len()
        &&& is_char_boundary(longer, heading.char_offset as int)
        &&& longer.subrange(heading.char_offset as int, end) == text_bytes(heading.text)
        &&& longer[end] == 0x0a
    } by {
        let heading = headings[i];
        let end = heading.char_offset + text_bytes(heading.text).len();
        lemma_boundaries_of_concat(content, added, heading.char_offset as int);
        assert(longer.subrange(heading.char_offset as int, end) =~= bytes.subrange(
            heading.char_offset as int,
            end,
        ));
    }
}

/// What one event adds to the text of the document.
spec fn added_by(state: BuilderState, event: MarkdownEventView) -> Seq<char> {
    step(state, event).content.skip(state.content.len() as int)
}

/// An event adds to the end of the text and changes nothing of what stands
/// there.
proof fn lemma_step_extends(state: BuilderState, event: MarkdownEventView)
    ensures
        step(state, event).content == state.content + added_by(state, event),
{
    let next = step(state, event);
    assert(next.content =~= state.content + added_by(state, event)) by {
        match event {
            MarkdownEventView::HeadingEnd => {
                if let Some(level) = state.heading_level {
                    assert(close_heading(state, level).content.subrange(
                        0,
                        state.content.len() as int,
                    ) =~= state.content);
                }
            },
            _ => {
                assert(next.content.subrange(0, state.content.len() as int) =~= state.content);
            },
        }
    }
}

/// An event leaves the headings placed.
proof fn lemma_step_places_headings(state: BuilderState, event: MarkdownEventView)
    requires
        headings_are_placed(state.content, state.headings),
        text_bytes(step(state, event).content).len() <= usize::MAX,
    ensures
        headings_are_placed(step(state, event).content, step(state, event).headings),
{
    let next = step(state, event);
    lemma_step_extends(state, event);
    lemma_placed_in_longer_text(state.content, added_by(state, event), state.headings);
    if event is HeadingEnd && state.heading_level is Some {
        let before = if state.content.len() > 0 {
            state.content + seq!['\n', '\n']
        } else {
            state.content
        };
        let text = state.heading_text;
        let tail = text + seq!['\n'];
        assert(next.content =~= before + tail);
        assert(before =~= state.content + before.skip(state.content.len() as int));
        lemma_bytes_of_concat(state.content, before.skip(state.content.len() as int));
        lemma_bytes_of_concat(before, tail);
        lemma_bytes_of_concat(text, seq!['\n']);
        assert(text_bytes(seq!['\n']) =~= seq![0x0a_u8]) by {
            reveal_with_fuel(encode_utf8, 2);
            let c = '\n' as u32;
            assert((c & 0x7F) as u8 == 0x0a) by (bit_vector)
                requires
                    c == 0x0a,
            ;
        }
        let bytes = text_bytes(next.content);
        let offset = text_bytes(before).len();
        is_char_boundary_start_end_of_seq(text_bytes(before));
        lemma_boundaries_of_concat(before, tail, offset as int);
        let placed = next.headings.last();
        assert(placed.char_offset == offset);
        assert forall|i: int| 0 <= i < next.headings.len() implies {
            let heading = #[trigger] next.headings[i];
            let end = heading.char_offset + text_bytes(heading.text).len();
            &&& end < bytes.len()
            &&& is_char_boundary(bytes, heading.char_offset as int)
            &&& bytes.subrange(heading.char_offset as int, end) == text_bytes(heading.text)
            &&& bytes[end] == 0x0a
        } by {
            if i < state.headings.len() {
                assert(next.headings[i] == state.headings[i]);
            }
        }
        assert forall|i: int, j: int| 0 <= i < j < next.headings.len() implies (
        #[trigger] next.headings[i]).char_offset + text_bytes(next.headings[i].text).len() < (
        #[trigger] next.headings[j]).char_offset by {
            if j < state.headings.len() {
                assert(next.headings[j] == state.headings[j]);
            }
        }
    }
}

/// The text only grows: what a stream has gathered is no shorter than what
/// its beginning gathered.
proof fn lemma_run_grows(events: Seq<MarkdownEventView>)
    requires
        events.len() > 0,
    ensures
        text_bytes(run(events.drop_last()).content).len() <= text_bytes(run(events).content).len(),
{
    let state = run(events.drop_last());
    lemma_step_extends(state, events.last());
    lemma_bytes_of_concat(state.content, added_by(state, events.last()));
}

/// In what a stream of events gathers, the headings are placed: they begin
/// one after the other, each at a character boundary of the text, where the
/// bytes of its own text stand on a line of their own.
pub proof fn lemma_run_places_headings(events: Seq<MarkdownEventView>)
    requires
        text_bytes(run(events).content).len() <= usize::MAX,
    ensures
        headings_are_placed(run(events).content, run(events).headings),
    decreases events.len(),
{
    if events.len() > 0 {
        lemma_run_grows(events);
        lemma_run_places_headings(events.drop_last());
        lemma_step_places_headings(run(events.drop_last()), events.last());
    }
}

/// The headings of a stream have the depths that its events give them.
pub proof fn lemma_run_keeps_depths(events: Seq<MarkdownEventView>)
    requires
        heading_levels_in_range(events),
    ensures
        heading_depths_in_range(run(events).headings),
        run(events).heading_level matches Some(level) ==> 1 <= level <= 6,
    decreases events.len(),
{
    if events.len() > 0 {
        let init = events.drop_last();
        assert(heading_levels_in_range(init)) by {
            assert forall|i: int| 0 <= i < init.len() implies ((
            #[trigger] init[i]) matches MarkdownEventView::HeadingStart(level) ==> 1 <= level
                <= 6) by {
                assert(init[i] == events[i]);
            }
        }
        lemma_run_keeps_depths(init);
        let state = run(init);
        let next = run(events);
        assert forall|i: int| 0 <= i < next.headings.len() implies 1 <= (
        #[trigger] next.headings[i]).level <= 6 by {
            if i < state.headings.len() {
                assert(next.headings[i] == state.headings[i]);
            }
        }
    }
}

/// A text without the whitespace at its end is a beginning of the text.
pub proof fn lemma_trim_end_is_prefix(text: Seq<char>)
    ensures
        trim_end_spec(text).len() <= text.len(),
        trim_end_spec(text) == text.take(trim_end_spec(text).len() as int),
    decreases text.len(),
{
    if text.len() > 0 && crate::text::is_whitespace_char(text.last()) {
        lemma_trim_end_is_prefix(text.drop_last());
    } else {
        assert(text.take(text.len() as int) =~= text);
    }
}

/// What the document keeps is a beginning of what was gathered: it ends at a
/// character boundary, and the bytes of the document are the bytes before it.
pub proof fn lemma_kept_bytes(events: Seq<MarkdownEventView>)
    requires
        text_bytes(run(events).content).len() <= usize::MAX,
    ensures
        0 <= kept_bytes(run(events)) <= text_bytes(run(events).content).len(),
        is_char_boundary(text_bytes(run(events).content), kept_bytes(run(events))),
        text_bytes(document_of(events).content) == text_bytes(run(events).content).subrange(
            0,
            kept_bytes(run(events)),
        ),
        text_bytes(trim_end_spec(run(events).content)) == text_bytes(run(events).content).subrange(
            0,
            text_bytes(trim_end_spec(run(events).content)).len() as int,
        ),
{
    let state = run(events);
    let bytes = text_bytes(state.content);
    let kept = kept_bytes(state);
    lemma_run_places_headings(events);
    lemma_trim_end_is_prefix(state.content);
    let trimmed = trim_end_spec(state.content);
    let dropped = state.content.skip(trimmed.len() as int);
    assert(state.content =~= trimmed + dropped);
    lemma_bytes_of_concat(trimmed, dropped);
    is_char_boundary_start_end_of_seq(text_bytes(trimmed));
    lemma_boundaries_of_concat(trimmed, dropped, text_bytes(trimmed).len() as int);
    if state.headings.len() > 0 {
        let last = state.headings.last();
        let end = last.char_offset + text_bytes(last.text).len();
        is_char_boundary_iff_not_is_continuation_byte(bytes, end);
    }
    valid_utf8_split(bytes, kept);
    decode_utf8_encode_utf8(bytes.subrange(0, kept));
}

/// The document of a stream of events is well formed: its headings begin one
/// after the other, each at a character boundary of the text, where the
/// bytes of its own text stand. Where the events give depths from 1 to 6, so
/// do the headings.
pub proof fn lemma_document_is_well_formed(events: Seq<MarkdownEventView>)
    requires
        text_bytes(run(events).content).len() <= usize::MAX,
    ensures
        document_of(events).is_well_formed(),
        heading_levels_in_range(events) ==> document_of(events).has_heading_depths(),
{
    let state = run(events);
    let document = document_of(events);
    let bytes = text_bytes(state.content);
    let kept = kept_bytes(state);
    let document_bytes = text_bytes(document.content);
    lemma_run_places_headings(events);
    lemma_kept_bytes(events);
    if heading_levels_in_range(events) {
        lemma_run_keeps_depths(events);
    }
    let count = document.headings.len() as int;
    assert forall|i: int| 0 <= i < count implies {
        let heading = #[trigger] document.headings[i];
        let end = heading.char_offset + text_bytes(heading.text).len();
        &&& end <= document_bytes.len()
        &&& is_char_boundary(document_bytes, heading.char_offset as int)
        &&& document_bytes.subrange(heading.char_offset as int, end) == text_bytes(heading.text)
    } by {
        let heading = document.headings[i];
        let end = heading.char_offset + text_bytes(heading.text).len();
        let last = state.headings[count - 1];
        assert(end <= last.char_offset + text_bytes(last.text).len());
        is_char_boundary_start_end_of_seq(document_bytes);
        if heading.char_offset < kept {
            is_char_boundary_iff_not_is_continuation_byte(bytes, heading.char_offset as int);
            is_char_boundary_iff_not_is_continuation_byte(
                document_bytes,
                heading.char_offset as int,
            );
        }
    }
}

} // verus!
