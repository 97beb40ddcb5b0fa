//! Markdown parsing.

use vstd::prelude::*;
use pulldown_cmark::CodeBlockKind::{Fenced, Indented};
use pulldown_cmark::Event::{self, End, Start, Text};
use pulldown_cmark::{Tag, TagEnd};
use crate::document::{DocumentNode, DocumentNodeView, NodeMetadata, NodeMetadataView, NodeType};
use crate::parse::lines;
use crate::parse::lines::span_to_line_range;
use crate::text;
use crate::text::{is_boundary, len_bytes};

verus! {

broadcast use {vstd::string::group_string_axioms, vstd::seq::group_seq_axioms};

/// What a Markdown parser meets.
pub enum MarkdownKind {
    /// The start of a heading of the given level.
    HeadingStart(u8),
    HeadingEnd,
    Text(String),
    /// The start of a code block; a fenced one has an info string.
    CodeStart(Option<String>),
    CodeEnd,
    ParagraphStart,
    ParagraphEnd,
    Other,
}

/// The view of a [`MarkdownKind`].
pub enum MarkdownKindView {
    HeadingStart(u8),
    HeadingEnd,
    Text(Seq<char>),
    CodeStart(Option<Seq<char>>),
    CodeEnd,
    ParagraphStart,
    ParagraphEnd,
    Other,
}

/// What a Markdown parser meets, and the bytes of the source that it takes up.
pub struct MarkdownEvent {
    pub kind: MarkdownKind,
    pub start: usize,
    pub end: usize,
}

/// The view of a [`MarkdownEvent`].
pub struct MarkdownEventView {
    pub kind: MarkdownKindView,
    pub start: usize,
    pub end: usize,
}

impl View for MarkdownEvent {
    type V = MarkdownEventView;

    open spec fn view(&self) -> MarkdownEventView {
        MarkdownEventView {
            kind: match self.kind {
                MarkdownKind::HeadingStart(level) => MarkdownKindView::HeadingStart(level),
                MarkdownKind::HeadingEnd => MarkdownKindView::HeadingEnd,
                MarkdownKind::Text(s) => MarkdownKindView::Text(s@),
                MarkdownKind::CodeStart(info) => MarkdownKindView::CodeStart(text::opt_view(info)),
                MarkdownKind::CodeEnd => MarkdownKindView::CodeEnd,
                MarkdownKind::ParagraphStart => MarkdownKindView::ParagraphStart,
                MarkdownKind::ParagraphEnd => MarkdownKindView::ParagraphEnd,
                MarkdownKind::Other => MarkdownKindView::Other,
            },
            start: self.start,
            end: self.end,
        }
    }
}

/// The events that `pulldown_cmark` reports for a Markdown text.
pub uninterp spec fn markdown_events(source: Seq<char>) -> Seq<MarkdownEventView>;

/// Calls `pulldown_cmark::Parser::into_offset_iter` and collects what it
/// yields. Claims that the events depend on the text alone.
#[verifier::external_body]
pub(crate) fn read_events(source: &str) -> (r: Vec<MarkdownEvent>)
    ensures
        text::views(r@) == markdown_events(source@),
{
    let convert = |event: Event| match event {
        Start(Tag::Heading { level, .. }) => MarkdownKind::HeadingStart(level as u8),
        End(TagEnd::Heading(_)) => MarkdownKind::HeadingEnd,
        Text(s) => MarkdownKind::Text(s.to_string()),
        Start(Tag::CodeBlock(Fenced(info))) => MarkdownKind::CodeStart(Some(info.to_string())),
        Start(Tag::CodeBlock(Indented)) => MarkdownKind::CodeStart(None),
        End(TagEnd::CodeBlock) => MarkdownKind::CodeEnd,
        Start(Tag::Paragraph) => MarkdownKind::ParagraphStart,
        End(TagEnd::Paragraph) => MarkdownKind::ParagraphEnd,
        _ => MarkdownKind::Other,
    };
    pulldown_cmark::Parser::new(source).into_offset_iter().map(|(event, range)|
        MarkdownEvent { kind: convert(event), start: range.start, end: range.end }).collect()
}

/// Whether an event's position is one in `source`.
pub open spec fn event_fits(event: MarkdownEventView, source: Seq<char>) -> bool {
    text::on_boundary(source, event.start as int) && text::on_boundary(source, event.end as int)
}

/// Whether every event's position is one in `source`.
pub open spec fn events_fit(events: Seq<MarkdownEventView>, source: Seq<char>) -> bool {
    forall|i: int| 0 <= i < events.len() ==> #[trigger] event_fits(events[i], source)
}

/// Whether every event's position is one in `source`.
pub fn check_events(events: &Vec<MarkdownEvent>, source: &str) -> (r: bool)
    ensures
        r == events_fit(text::views(events@), source@),
{
    let ghost all = text::views(events@);
    let mut i: usize = 0;
    while i < events.len()
        invariant
            i <= events@.len(),
            all == text::views(events@),
            forall|k: int| 0 <= k < i ==> #[trigger] event_fits(all[k], source@),
        decreases events@.len() - i,
    {
        let fits: bool = is_boundary(source, events[i].start) && is_boundary(source, events[i].end);
        assert(fits == event_fits(all[i as int], source@));
        if !fits {
            return false;
        }
        i = i + 1;
    }
    true
}

/// What has been met so far.
pub struct MarkdownState {
    /// Where the current section starts.
    pub section_start: Option<usize>,
    /// The heading of the current section and its level.
    pub heading: Option<(Seq<char>, u8)>,
    pub in_heading: bool,
    pub heading_text: Seq<char>,
    pub heading_level: u8,
    pub code_start: Option<usize>,
    pub code_language: Option<Seq<char>>,
    pub paragraph_start: Option<usize>,
    /// The nodes that are complete.
    pub nodes: Seq<DocumentNodeView>,
}

/// Nothing has been met.
pub open spec fn initial_state() -> MarkdownState {
    MarkdownState {
        section_start: None,
        heading: None,
        in_heading: false,
        heading_text: Seq::empty(),
        heading_level: 0,
        code_start: None,
        code_language: None,
        paragraph_start: None,
        nodes: Seq::empty(),
    }
}

/// The node of the bytes from `start` to `end`.
pub open spec fn node_between(
    source: Seq<char>,
    start: usize,
    end: usize,
    metadata: NodeMetadataView,
) -> DocumentNodeView {
    DocumentNodeView::top(start..end, lines::line_range(source, start..end), metadata)
}

/// The nodes with the current section, which ends at `end`, if there is one.
pub open spec fn close_section(
    state: MarkdownState,
    source: Seq<char>,
    end: usize,
) -> Seq<DocumentNodeView> {
    match (state.section_start, state.heading) {
        (Some(start), Some((heading, level))) => state.nodes.push(
            node_between(source, start, end, NodeMetadataView::Section { heading, level }),
        ),
        _ => state.nodes,
    }
}

/// An info string, unless it is empty.
pub open spec fn language_of(info: Option<Seq<char>>) -> Option<Seq<char>> {
    match info {
        Some(s) => if s.len() == 0 {
            None
        } else {
            Some(s)
        },
        None => None,
    }
}

/// The state after one more event. A heading ends the section before it; the
/// section that it heads starts where the heading does.
pub open spec fn next_state(
    state: MarkdownState,
    event: MarkdownEventView,
    source: Seq<char>,
) -> MarkdownState {
    match event.kind {
        MarkdownKindView::HeadingStart(level) => MarkdownState {
            nodes: close_section(state, source, event.start),
            heading: None,
            in_heading: true,
            heading_text: Seq::empty(),
            heading_level: level,
            ..state
        },
        MarkdownKindView::HeadingEnd => MarkdownState {
            in_heading: false,
            section_start: Some(event.start),
            heading: Some((state.heading_text, state.heading_level)),
            ..state
        },
        MarkdownKindView::Text(s) => if state.in_heading {
            MarkdownState { heading_text: state.heading_text + s, ..state }
        } else {
            state
        },
        MarkdownKindView::CodeStart(info) => MarkdownState {
            code_start: Some(event.start),
            code_language: language_of(info),
            ..state
        },
        MarkdownKindView::CodeEnd => match state.code_start {
            Some(start) => MarkdownState {
                code_start: None,
                code_language: None,
                nodes: state.nodes.push(
                    node_between(
                        source,
                        start,
                        event.end,
                        NodeMetadataView::CodeBlock { language: state.code_language },
                    ),
                ),
                ..state
            },
            None => state,
        },
        MarkdownKindView::ParagraphStart => MarkdownState {
            paragraph_start: Some(event.start),
            ..state
        },
        MarkdownKindView::ParagraphEnd => match state.paragraph_start {
            Some(start) => MarkdownState {
                paragraph_start: None,
                nodes: state.nodes.push(
                    node_between(source, start, event.end, NodeMetadataView::Paragraph),
                ),
                ..state
            },
            None => state,
        },
        MarkdownKindView::Other => state,
    }
}

/// The state after all the events.
pub open spec fn state_after(events: Seq<MarkdownEventView>, source: Seq<char>) -> MarkdownState
    decreases events.len(),
{
    if events.len() == 0 {
        initial_state()
    } else {
        next_state(state_after(events.drop_last(), source), events.last(), source)
    }
}

/// The nodes of a Markdown text with the given events. The last section
/// reaches to the end of the text.
pub open spec fn markdown_nodes(events: Seq<MarkdownEventView>, source: Seq<char>) -> Seq<
    DocumentNodeView,
> {
    close_section(state_after(events, source), source, text::byte_len(source) as usize)
}

/// The parser's state.
struct Progress {
    section_start: Option<usize>,
    heading: Option<(String, u8)>,
    in_heading: bool,
    heading_text: String,
    heading_level: u8,
    code_start: Option<usize>,
    code_language: Option<String>,
    paragraph_start: Option<usize>,
    nodes: Vec<DocumentNode>,
}

impl Progress {
    spec fn state(self) -> MarkdownState {
        MarkdownState {
            section_start: self.section_start,
            heading: match self.heading {
                Some((heading, level)) => Some((heading@, level)),
                None => None,
            },
            in_heading: self.in_heading,
            heading_text: self.heading_text@,
            heading_level: self.heading_level,
            code_start: self.code_start,
            code_language: text::opt_view(self.code_language),
            paragraph_start: self.paragraph_start,
            nodes: text::views(self.nodes@),
        }
    }

    /// Every open part starts between two characters.
    spec fn fits(self, source: Seq<char>) -> bool {
        &&& self.section_start matches Some(i) ==> text::on_boundary(source, i as int)
        &&& self.code_start matches Some(i) ==> text::on_boundary(source, i as int)
        &&& self.paragraph_start matches Some(i) ==> text::on_boundary(source, i as int)
    }

    fn push(
        &mut self,
        source: &str,
        start: usize,
        end: usize,
        node_type: NodeType,
        metadata: NodeMetadata,
    )
        requires
            node_type == metadata@.node_type(),
            lines::countable(source@),
            text::on_boundary(source@, start as int),
            text::on_boundary(source@, end as int),
            old(self).fits(source@),
        ensures
            final(self).fits(source@),
            final(self).state() == (MarkdownState {
                nodes: old(self).state().nodes.push(node_between(source@, start, end, metadata@)),
                ..old(self).state()
            }),
    {
        let line_range: (usize, usize) = span_to_line_range(source, &(start..end));
        let node: DocumentNode = DocumentNode::top(node_type, start..end, line_range, metadata);
        proof {
            text::lemma_views_push(self.nodes@, node);
        }
        self.nodes.push(node);
    }

    /// Ends the current section, if there is one.
    fn close(&mut self, source: &str, end: usize)
        requires
            lines::countable(source@),
            text::on_boundary(source@, end as int),
            old(self).fits(source@),
        ensures
            final(self).fits(source@),
            final(self).state() == (MarkdownState {
                heading: None,
                nodes: close_section(old(self).state(), source@, end),
                ..old(self).state()
            }),
    {
        let heading: Option<(String, u8)> = self.heading.take();
        match (self.section_start, heading) {
            (Some(start), Some((heading, level))) => {
                self.push(
                    source,
                    start,
                    end,
                    NodeType::Section,
                    NodeMetadata::Section { heading, level },
                );
            },
            _ => {},
        }
    }

    fn step(&mut self, source: &str, event: &MarkdownEvent)
        requires
            lines::countable(source@),
            event_fits(event@, source@),
            old(self).fits(source@),
        ensures
            final(self).fits(source@),
            final(self).state() == next_state(old(self).state(), event@, source@),
    {
        match &event.kind {
            MarkdownKind::HeadingStart(level) => {
                self.close(source, event.start);
                self.in_heading = true;
                self.heading_text = String::new();
                self.heading_level = *level;
            },
            MarkdownKind::HeadingEnd => {
                self.in_heading = false;
                self.section_start = Some(event.start);
                self.heading = Some((self.heading_text.clone(), self.heading_level));
            },
            MarkdownKind::Text(s) => {
                if self.in_heading {
                    let mut longer: String = self.heading_text.clone();
                    longer.append(s.as_str());
                    self.heading_text = longer;
                }
            },
            MarkdownKind::CodeStart(info) => {
                self.code_start = Some(event.start);
                self.code_language = match info {
                    Some(s) => if s.as_str().is_empty() {
                        None
                    } else {
                        Some(s.clone())
                    },
                    None => None,
                };
            },
            MarkdownKind::CodeEnd => {
                match self.code_start {
                    Some(start) => {
                        let language: Option<String> = self.code_language.take();
                        self.code_start = None;
                        self.push(
                            source,
                            start,
                            event.end,
                            NodeType::CodeBlock,
                            NodeMetadata::CodeBlock { language },
                        );
                    },
                    None => {},
                }
            },
            MarkdownKind::ParagraphStart => {
                self.paragraph_start = Some(event.start);
            },
            MarkdownKind::ParagraphEnd => {
                match self.paragraph_start {
                    Some(start) => {
                        self.paragraph_start = None;
                        self.push(
                            source,
                            start,
                            event.end,
                            NodeType::Paragraph,
                            NodeMetadata::Paragraph,
                        );
                    },
                    None => {},
                }
            },
            MarkdownKind::Other => {},
        }
    }
}

/// The nodes of a Markdown text with the given events.
pub fn nodes_of_events(events: &Vec<MarkdownEvent>, source: &str) -> (r: Vec<DocumentNode>)
    requires
        lines::countable(source@),
        events_fit(text::views(events@), source@),
    ensures
        text::views(r@) == markdown_nodes(text::views(events@), source@),
{
    let ghost all = text::views(events@);
    let mut progress: Progress = Progress {
        section_start: None,
        heading: None,
        in_heading: false,
        heading_text: String::new(),
        heading_level: 0,
        code_start: None,
        code_language: None,
        paragraph_start: None,
        nodes: Vec::new(),
    };
    let mut i: usize = 0;
    proof {
        assert(progress.state().nodes =~= initial_state().nodes);
        assert(all.take(0) =~= Seq::empty());
    }
    while i < events.len()
        invariant
            i <= events@.len(),
            all == text::views(events@),
            lines::countable(source@),
            events_fit(all, source@),
            progress.fits(source@),
            progress.state() == state_after(all.take(i as int), source@),
        decreases events@.len() - i,
    {
        assert(event_fits(all[i as int], source@));
        proof {
            assert(all.take(i + 1).drop_last() =~= all.take(i as int));
            assert(all.take(i + 1).last() == events@[i as int]@);
        }
        progress.step(source, &events[i]);
        i = i + 1;
    }
    assert(all.take(events@.len() as int) =~= all);
    let end: usize = len_bytes(source);
    proof {
        text::lemma_prefix_boundary(source@, source@.len() as int);
        assert(source@.take(source@.len() as int) =~= source@);
    }
    progress.close(source, end);
    progress.nodes
}

/// The nodes of a Markdown text.
pub fn parse_markdown(source: &str) -> (r: Vec<DocumentNode>)
    requires
        lines::countable(source@),
        events_fit(markdown_events(source@), source@),
    ensures
        text::views(r@) == markdown_nodes(markdown_events(source@), source@),
{
    let events: Vec<MarkdownEvent> = read_events(source);
    nodes_of_events(&events, source)
}

} // verus!
