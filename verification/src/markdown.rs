//! Flattening of markdown into plain text with heading metadata.
//!
//! The markdown is read by `pulldown_cmark`, which turns it into a stream of
//! events. The events are folded into the text of the document: blocks are
//! set apart by blank lines, list items are marked and indented, inline code
//! keeps its backticks, and each heading is recorded with the offset at which
//! its text begins.
use crate::error::IngestionError;
use crate::markdown::MarkdownEvent::{
    Code, CodeBlockEnd, CodeBlockStart, HardBreak, HeadingEnd, HeadingStart, ItemEnd, ItemStart,
    ListEnd, ListStart, Other, ParagraphEnd, ParagraphStart, SoftBreak, Text,
};
use crate::markdown_laws::{
    lemma_document_is_well_formed, lemma_kept_bytes, lemma_run_places_headings,
};
use crate::text::{
    byte_len, ends_with_newline, ends_with_newline_spec, slice_text, text_bytes, trim_end_spec,
    trimmed_end,
};
use crate::traits::DocumentParserLocal;
use crate::types::{headings_view, HeadingInfo, HeadingView, ParsedDocument, ParsedDocumentView};
use pulldown_cmark::Event::{End, Start};
use pulldown_cmark::{Event, Parser, Tag, TagEnd};
use vstd::prelude::*;
use vstd::string::*;
use vstd::utf8::*;

verus! {

broadcast use {encode_utf8_valid_utf8, encode_utf8_decode_utf8};

/// What the document builder tells apart in a stream of markdown events.
#[derive(Debug, Clone, PartialEq)]
pub enum MarkdownEvent {
    /// A heading of the given depth begins.
    HeadingStart(u32),
    HeadingEnd,
    ParagraphStart,
    ParagraphEnd,
    CodeBlockStart,
    CodeBlockEnd,
    ListStart,
    ListEnd,
    ItemStart,
    ItemEnd,
    /// A run of text.
    Text(String),
    /// An inline code span, without its backticks.
    Code(String),
    SoftBreak,
    HardBreak,
    /// Any other event; it leaves no trace in the document.
    Other,
}

/// Mathematical content of a [`MarkdownEvent`].
pub ghost enum MarkdownEventView {
    HeadingStart(u32),
    HeadingEnd,
    ParagraphStart,
    ParagraphEnd,
    CodeBlockStart,
    CodeBlockEnd,
    ListStart,
    ListEnd,
    ItemStart,
    ItemEnd,
    Text(Seq<char>),
    Code(Seq<char>),
    SoftBreak,
    HardBreak,
    Other,
}

impl View for MarkdownEvent {
    type V = MarkdownEventView;

    open spec fn view(&self) -> MarkdownEventView {
        match self {
            MarkdownEvent::HeadingStart(level) => MarkdownEventView::HeadingStart(*level),
            MarkdownEvent::HeadingEnd => MarkdownEventView::HeadingEnd,
            MarkdownEvent::ParagraphStart => MarkdownEventView::ParagraphStart,
            MarkdownEvent::ParagraphEnd => MarkdownEventView::ParagraphEnd,
            MarkdownEvent::CodeBlockStart => MarkdownEventView::CodeBlockStart,
            MarkdownEvent::CodeBlockEnd => MarkdownEventView::CodeBlockEnd,
            MarkdownEvent::ListStart => MarkdownEventView::ListStart,
            MarkdownEvent::ListEnd => MarkdownEventView::ListEnd,
            MarkdownEvent::ItemStart => MarkdownEventView::ItemStart,
            MarkdownEvent::ItemEnd => MarkdownEventView::ItemEnd,
            MarkdownEvent::Text(text) => MarkdownEventView::Text(text@),
            MarkdownEvent::Code(code) => MarkdownEventView::Code(code@),
            MarkdownEvent::SoftBreak => MarkdownEventView::SoftBreak,
            MarkdownEvent::HardBreak => MarkdownEventView::HardBreak,
            MarkdownEvent::Other => MarkdownEventView::Other,
        }
    }
}

/// The views of a list of events, in the same order.
pub open spec fn events_view(events: Seq<MarkdownEvent>) -> Seq<MarkdownEventView> {
    Seq::new(events.len(), |i: int| events[i]@)
}

/// The events that `pulldown_cmark` reads out of a markdown text, with no
/// extension switched on.
pub uninterp spec fn parsed_markdown(markdown: Seq<char>) -> Seq<MarkdownEventView>;

/// Whether every heading of the stream has a depth from 1 to 6.
pub open spec fn heading_levels_in_range(events: Seq<MarkdownEventView>) -> bool {
    forall|i: int|
        0 <= i < events.len() ==> ((#[trigger] events[i]) matches MarkdownEventView::HeadingStart(
            level,
        ) ==> 1 <= level <= 6)
}

/// Runs `pulldown_cmark::Parser::new` over the text and walks the parser,
/// which is an iterator of `pulldown_cmark::Event`s, to its end. Each event is
/// handed on as the [`MarkdownEvent`] of its kind, with its text where it has
/// one; a heading's level, `H1` to `H6`, becomes its number, 1 to 6; an event
/// of any other kind becomes [`MarkdownEvent::Other`]. What the parser makes of
/// a text depends on the text alone and is named [`parsed_markdown`].
#[verifier::external_body]
fn markdown_events(markdown: &str) -> (events: Vec<MarkdownEvent>)
    ensures
        events_view(events@) == parsed_markdown(markdown@),
        heading_levels_in_range(events_view(events@)),
{
    Parser::new(markdown).map(|event| match event {
        Start(Tag::Heading { level, .. }) => HeadingStart(level as u32),
        End(TagEnd::Heading(_)) => HeadingEnd,
        Start(Tag::Paragraph) => ParagraphStart, End(TagEnd::Paragraph) => ParagraphEnd,
        Start(Tag::CodeBlock(_)) => CodeBlockStart, End(TagEnd::CodeBlock) => CodeBlockEnd,
        Start(Tag::List(_)) => ListStart, End(TagEnd::List(_)) => ListEnd,
        Start(Tag::Item) => ItemStart, End(TagEnd::Item) => ItemEnd,
        Event::Text(text) => Text(text.into_string()),
        Event::Code(code) => Code(code.into_string()),
        Event::SoftBreak => SoftBreak,
        Event::HardBreak => HardBreak,
        _ => Other,
    }).collect()
}

/// What the document builder has gathered so far.
pub ghost struct BuilderState {
    /// The text of the document.
    pub content: Seq<char>,
    /// The headings that have ended.
    pub headings: Seq<HeadingView>,
    /// The depth of the heading that is open, if one is.
    pub heading_level: Option<u32>,
    /// The text of the heading that is open.
    pub heading_text: Seq<char>,
    pub in_code_block: bool,
    /// How many lists are open, one inside the other.
    pub list_depth: nat,
}

/// The state before the first event.
pub open spec fn initial_state() -> BuilderState {
    BuilderState {
        content: Seq::empty(),
        headings: Seq::empty(),
        heading_level: None,
        heading_text: Seq::empty(),
        in_code_block: false,
        list_depth: 0,
    }
}

/// The text, followed by a blank line unless it is empty or ends with a line
/// feed already.
pub open spec fn set_apart(content: Seq<char>) -> Seq<char> {
    if content.len() > 0 && !ends_with_newline_spec(content) {
        content + seq!['\n', '\n']
    } else {
        content
    }
}

/// The text, followed by a line feed unless it ends with one already.
pub open spec fn closed_line(content: Seq<char>) -> Seq<char> {
    if ends_with_newline_spec(content) {
        content
    } else {
        content + seq!['\n']
    }
}

/// The blanks before the marker of an item at the given list depth: two for
/// each list around the item's own.
pub open spec fn item_indent(depth: nat) -> Seq<char> {
    Seq::new(
        if depth >= 1 {
            (2 * (depth - 1)) as nat
        } else {
            0
        },
        |i: int| ' ',
    )
}

/// The state after inline text: it goes to the open heading if there is one,
/// and to the document otherwise.
pub open spec fn add_inline(state: BuilderState, text: Seq<char>) -> BuilderState {
    if state.heading_level is Some {
        BuilderState { heading_text: state.heading_text + text, ..state }
    } else {
        BuilderState { content: state.content + text, ..state }
    }
}

/// The state after a heading of depth `level` has ended: a blank line sets
/// the heading apart from what stands before it, its text gets a line of its
/// own, and the heading is recorded with the offset at which its text begins.
pub open spec fn close_heading(state: BuilderState, level: u32) -> BuilderState {
    let before = if state.content.len() > 0 {
        state.content + seq!['\n', '\n']
    } else {
        state.content
    };
    let heading = HeadingView {
        level,
        text: state.heading_text,
        char_offset: text_bytes(before).len() as usize,
    };
    BuilderState {
        content: before + state.heading_text + seq!['\n'],
        headings: state.headings.push(heading),
        heading_level: None,
        heading_text: Seq::empty(),
        ..state
    }
}

/// The state after one event.
pub open spec fn step(state: BuilderState, event: MarkdownEventView) -> BuilderState {
    match event {
        MarkdownEventView::HeadingStart(level) => BuilderState {
            heading_level: Some(level),
            heading_text: Seq::empty(),
            ..state
        },
        MarkdownEventView::HeadingEnd => match state.heading_level {
            Some(level) => close_heading(state, level),
            None => state,
        },
        MarkdownEventView::ParagraphStart => BuilderState {
            content: set_apart(state.content),
            ..state
        },
        MarkdownEventView::ParagraphEnd => BuilderState {
            content: state.content + seq!['\n'],
            ..state
        },
        MarkdownEventView::CodeBlockStart => BuilderState {
            content: set_apart(state.content),
            in_code_block: true,
            ..state
        },
        MarkdownEventView::CodeBlockEnd => BuilderState {
            content: state.content + seq!['\n'],
            in_code_block: false,
            ..state
        },
        MarkdownEventView::ListStart => BuilderState {
            content: if state.list_depth == 0 && state.content.len() > 0 {
                closed_line(state.content)
            } else {
                state.content
            },
            list_depth: state.list_depth + 1,
            ..state
        },
        MarkdownEventView::ListEnd => BuilderState {
            content: if state.list_depth <= 1 {
                state.content + seq!['\n']
            } else {
                state.content
            },
            list_depth: if state.list_depth >= 1 {
                (state.list_depth - 1) as nat
            } else {
                0
            },
            ..state
        },
        MarkdownEventView::ItemStart => BuilderState {
            content: state.content + item_indent(state.list_depth) + seq!['-', ' '],
            ..state
        },
        MarkdownEventView::ItemEnd => BuilderState { content: closed_line(state.content), ..state },
        MarkdownEventView::Text(text) => add_inline(state, text),
        MarkdownEventView::Code(code) => add_inline(state, seq!['`'] + code + seq!['`']),
        MarkdownEventView::SoftBreak | MarkdownEventView::HardBreak => if state.heading_level
            is None && state.in_code_block {
            BuilderState { content: state.content + seq!['\n'], ..state }
        } else {
            add_inline(state, seq![' '])
        },
        MarkdownEventView::Other => state,
    }
}

/// The state after a stream of events.
pub open spec fn run(events: Seq<MarkdownEventView>) -> BuilderState
    decreases events.len(),
{
    if events.len() == 0 {
        initial_state()
    } else {
        step(run(events.drop_last()), events.last())
    }
}

/// How many bytes of the gathered text the document keeps: all but the
/// whitespace at the end, and in any case the last heading with its text.
pub open spec fn kept_bytes(state: BuilderState) -> int {
    let trimmed = text_bytes(trim_end_spec(state.content)).len() as int;
    if state.headings.len() > 0 {
        let last = state.headings.last();
        let end = last.char_offset + text_bytes(last.text).len();
        if end > trimmed {
            end
        } else {
            trimmed
        }
    } else {
        trimmed
    }
}

/// The document that a stream of events describes: the headings that the
/// events have gathered, and of the text what [`kept_bytes`] keeps. That is
/// the text without the whitespace at its end, unless the document ends with
/// a heading that the whitespace belongs to or comes before.
pub open spec fn document_of(events: Seq<MarkdownEventView>) -> ParsedDocumentView {
    let state = run(events);
    ParsedDocumentView {
        content: decode_utf8(text_bytes(state.content).subrange(0, kept_bytes(state))),
        headings: state.headings,
    }
}

/// The builder that folds events into a document.
struct DocumentBuilder {
    content: String,
    headings: Vec<HeadingInfo>,
    heading_level: Option<u32>,
    heading_text: String,
    in_code_block: bool,
    list_depth: usize,
}

impl View for DocumentBuilder {
    type V = BuilderState;

    closed spec fn view(&self) -> BuilderState {
        BuilderState {
            content: self.content@,
            headings: headings_view(self.headings@),
            heading_level: self.heading_level,
            heading_text: self.heading_text@,
            in_code_block: self.in_code_block,
            list_depth: self.list_depth as nat,
        }
    }
}

impl DocumentBuilder {
    fn new() -> (builder: Self)
        ensures
            builder@ == initial_state(),
    {
        let builder = DocumentBuilder {
            content: String::new(),
            headings: Vec::new(),
            heading_level: None,
            heading_text: String::new(),
            in_code_block: false,
            list_depth: 0,
        };
        assert(headings_view(builder.headings@) =~= Seq::<HeadingView>::empty());
        builder
    }

    /// Sets what follows apart from what the document holds.
    fn set_apart(&mut self)
        ensures
            final(self)@ == (BuilderState { content: set_apart(old(self)@.content), ..old(self)@ }),
    {
        if !self.content.as_str().is_empty() && !ends_with_newline(self.content.as_str()) {
            proof {
                reveal_strlit("\n\n");
            }
            assert("\n\n"@ =~= seq!['\n', '\n']);
            self.content.append("\n\n");
        }
    }

    /// Ends the line that the document is in, if it is in one.
    fn close_line(&mut self)
        ensures
            final(self)@ == (BuilderState { content: closed_line(old(self)@.content), ..old(self)@ }),
    {
        if !ends_with_newline(self.content.as_str()) {
            self.push_newline();
        }
    }

    fn push_newline(&mut self)
        ensures
            final(self)@ == (BuilderState {
                content: old(self)@.content + seq!['\n'],
                ..old(self)@
            }),
    {
        proof {
            reveal_strlit("\n");
        }
        assert("\n"@ =~= seq!['\n']);
        self.content.append("\n");
    }

    /// Adds inline text to the open heading, or to the document.
    fn add_inline(&mut self, text: &str)
        ensures
            final(self)@ == add_inline(old(self)@, text@),
    {
        if self.heading_level.is_some() {
            self.heading_text.append(text);
        } else {
            self.content.append(text);
        }
    }

    /// Ends the heading of depth `level`.
    fn close_heading(&mut self, level: u32)
        ensures
            final(self)@ == close_heading(old(self)@, level),
    {
        proof {
            reveal_strlit("\n\n");
            reveal_strlit("\n");
        }
        assert("\n\n"@ =~= seq!['\n', '\n']);
        assert("\n"@ =~= seq!['\n']);
        if !self.content.as_str().is_empty() {
            self.content.append("\n\n");
        }
        let char_offset = byte_len(self.content.as_str());
        let ghost recorded = self.headings@;
        self.content.append(self.heading_text.as_str());
        self.content.append("\n");
        let text = self.heading_text.clone();
        self.headings.push(HeadingInfo { level, text, char_offset });
        self.heading_text = String::new();
        self.heading_level = None;
        assert(headings_view(self.headings@) =~= headings_view(recorded).push(
            HeadingView { level, text: old(self)@.heading_text, char_offset },
        ));
    }

    /// Begins a list item: indents it and marks it.
    fn open_item(&mut self)
        ensures
            final(self)@ == (BuilderState {
                content: old(self)@.content + item_indent(old(self)@.list_depth) + seq!['-', ' '],
                ..old(self)@
            }),
    {
        proof {
            reveal_strlit("  ");
            reveal_strlit("- ");
        }
        assert("- "@ =~= seq!['-', ' ']);
        let mut indent = String::new();
        let mut k: usize = 1;
        while k < self.list_depth
            invariant
                1 <= k,
                k <= self.list_depth || k == 1,
                indent@ == Seq::new((2 * (k - 1)) as nat, |i: int| ' '),
                "  "@ == seq![' ', ' '],
            decreases self.list_depth - k,
        {
            indent.append("  ");
            k = k + 1;
        }
        self.content.append(indent.as_str());
        self.content.append("- ");
    }

    /// Takes one event in.
    fn apply(&mut self, event: &MarkdownEvent)
        requires
            old(self).list_depth < usize::MAX,
        ensures
            final(self)@ == step(old(self)@, event@),
    {
        proof {
            reveal_strlit("`");
            reveal_strlit(" ");
        }
        assert("`"@ =~= seq!['`']);
        assert(" "@ =~= seq![' ']);
        match event {
            MarkdownEvent::HeadingStart(level) => {
                self.heading_level = Some(*level);
                self.heading_text = String::new();
            },
            MarkdownEvent::HeadingEnd => {
                match self.heading_level {
                    Some(level) => {
                        self.close_heading(level);
                    },
                    None => {},
                }
            },
            MarkdownEvent::ParagraphStart => {
                self.set_apart();
            },
            MarkdownEvent::ParagraphEnd => {
                self.push_newline();
            },
            MarkdownEvent::CodeBlockStart => {
                self.in_code_block = true;
                self.set_apart();
            },
            MarkdownEvent::CodeBlockEnd => {
                self.in_code_block = false;
                self.push_newline();
            },
            MarkdownEvent::ListStart => {
                self.list_depth = self.list_depth + 1;
                if self.list_depth == 1 && !self.content.as_str().is_empty() {
                    self.close_line();
                }
            },
            MarkdownEvent::ListEnd => {
                if self.list_depth >= 1 {
                    self.list_depth = self.list_depth - 1;
                }
                if self.list_depth == 0 {
                    self.push_newline();
                }
            },
            MarkdownEvent::ItemStart => {
                self.open_item();
            },
            MarkdownEvent::ItemEnd => {
                self.close_line();
            },
            MarkdownEvent::Text(text) => {
                self.add_inline(text.as_str());
            },
            MarkdownEvent::Code(code) => {
                let ghost before = self@;
                self.add_inline("`");
                self.add_inline(code.as_str());
                self.add_inline("`");
                assert(self@ =~= add_inline(before, seq!['`'] + code@ + seq!['`'])) by {
                    assert(before.content + seq!['`'] + code@ + seq!['`'] =~= before.content + (
                    seq!['`'] + code@ + seq!['`']));
                    assert(before.heading_text + seq!['`'] + code@ + seq!['`']
                        =~= before.heading_text + (seq!['`'] + code@ + seq!['`']));
                }
            },
            MarkdownEvent::SoftBreak | MarkdownEvent::HardBreak => {
                if self.heading_level.is_none() && self.in_code_block {
                    self.push_newline();
                } else {
                    self.add_inline(" ");
                }
            },
            MarkdownEvent::Other => {},
        }
    }
}

/// Folds a stream of events into a document.
///
/// The result is [`document_of`] the events: blocks set apart by blank lines,
/// each heading on a line of its own and recorded with its depth, its text and
/// the byte offset at which the text begins, list items marked with `- ` and
/// indented by their depth, inline code between backticks, and no whitespace
/// at the end but what belongs to a last heading.
///
/// The document is well formed: its headings come out in the order of their
/// offsets, and each begins at a character boundary of the text, where its
/// own text stands.
pub fn build_document(events: &Vec<MarkdownEvent>) -> (document: ParsedDocument)
    ensures
        document@ == document_of(events_view(events@)),
        document@.is_well_formed(),
        heading_levels_in_range(events_view(events@)) ==> document@.has_heading_depths(),
{
    let ghost views = events_view(events@);
    let mut builder = DocumentBuilder::new();
    let mut i: usize = 0;
    while i < events.len()
        invariant
            views == events_view(events@),
            i <= events.len(),
            builder.list_depth <= i,
            builder@ == run(views.take(i as int)),
        decreases events.len() - i,
    {
        assert(views.take(i + 1).drop_last() =~= views.take(i as int));
        builder.apply(&events[i]);
        i = i + 1;
    }
    assert(views.take(events.len() as int) =~= views);
    let gathered = builder.content.as_str();
    // A string holds no more bytes than a `usize` counts.
    let _total = byte_len(gathered);
    let ghost bytes = text_bytes(gathered@);
    proof {
        lemma_run_places_headings(views);
        lemma_kept_bytes(views);
        lemma_document_is_well_formed(views);
    }
    let trimmed = trimmed_end(gathered);
    let kept = byte_len(trimmed.as_str());
    let count = builder.headings.len();
    let mut end: usize = 0;
    if count > 0 {
        let last = &builder.headings[count - 1];
        end = last.char_offset + byte_len(last.text.as_str());
    }
    let content = if end > kept {
        proof {
            is_char_boundary_start_end_of_seq(bytes);
        }
        slice_text(gathered, 0, end)
    } else {
        trimmed
    };
    ParsedDocument { content, headings: builder.headings }
}

/// Parser for markdown documents.
pub struct MarkdownParser;

impl MarkdownParser {
    /// The parser; it holds no state.
    pub fn new() -> Self {
        MarkdownParser
    }

    /// Parses markdown into a document: the events that `pulldown_cmark`
    /// reads out of the text, folded as [`build_document`] folds them.
    ///
    /// The document is well formed, and its headings have depths from 1 to 6.
    pub fn parse_content(&self, markdown: &str) -> (document: ParsedDocument)
        ensures
            document@ == document_of(parsed_markdown(markdown@)),
            document@.is_well_formed(),
            document@.has_heading_depths(),
    {
        let events = markdown_events(markdown);
        build_document(&events)
    }
}

impl Default for MarkdownParser {
    fn default() -> Self {
        MarkdownParser::new()
    }
}

impl DocumentParserLocal for MarkdownParser {
    /// Parses markdown as [`MarkdownParser::parse_content`] does. Every text
    /// is markdown, so this never fails.
    fn parse(&self, source: &str) -> (result: Result<ParsedDocument, IngestionError>)
        ensures
            result matches Ok(document) && document@ == document_of(parsed_markdown(source@))
                && document@.is_well_formed() && document@.has_heading_depths(),
    {
        Ok(self.parse_content(source))
    }

    /// The extensions of markdown files: `md` and `markdown`.
    fn supported_extensions(&self) -> (extensions: &[&str])
        ensures
            extensions@.len() == 2,
            extensions@[0]@ == "md"@,
            extensions@[1]@ == "markdown"@,
    {
        &["md", "markdown"]
    }
}

} // verus!
