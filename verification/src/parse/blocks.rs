//! What the nodes of a Markdown text are: its code blocks, its paragraphs and its
//! sections, each from where it starts to where it ends.

use vstd::prelude::*;
use crate::document::{DocumentNodeView, NodeMetadataView, NodeType};
use crate::parse::markdown;
use crate::parse::markdown::{MarkdownEventView, MarkdownKindView};
use crate::text;

verus! {

broadcast use vstd::seq::group_seq_axioms;

/// Whether a code block that starts at event `i` is still open before event `n`.
pub open spec fn code_open(events: Seq<MarkdownEventView>, i: int, n: int) -> bool {
    &&& 0 <= i < n <= events.len()
    &&& events[i].kind is CodeStart
    &&& forall|k: int|
        i < k < n ==> !((#[trigger] events[k]).kind is CodeStart) && !(events[k].kind is CodeEnd)
}

/// Whether a paragraph that starts at event `i` is still open before event `n`.
pub open spec fn paragraph_open(events: Seq<MarkdownEventView>, i: int, n: int) -> bool {
    &&& 0 <= i < n <= events.len()
    &&& events[i].kind is ParagraphStart
    &&& forall|k: int|
        i < k < n ==> !((#[trigger] events[k]).kind is ParagraphStart) && !(events[k].kind
            is ParagraphEnd)
}

/// Whether the heading that starts at event `h` is still open before event `n`.
pub open spec fn heading_open(events: Seq<MarkdownEventView>, h: int, n: int) -> bool {
    &&& 0 <= h < n <= events.len()
    &&& events[h].kind is HeadingStart
    &&& forall|k: int|
        h < k < n ==> !((#[trigger] events[k]).kind is HeadingStart) && !(events[k].kind
            is HeadingEnd)
}

/// Whether the section whose heading ends at event `e` is still open before event `n`.
pub open spec fn section_open(events: Seq<MarkdownEventView>, e: int, n: int) -> bool {
    &&& 0 <= e < n <= events.len()
    &&& events[e].kind is HeadingEnd
    &&& forall|k: int|
        e < k < n ==> !((#[trigger] events[k]).kind is HeadingStart) && !(events[k].kind
            is HeadingEnd)
}

/// The texts of the events from `from` up to `to`, one after the other.
pub open spec fn texts(events: Seq<MarkdownEventView>, from: int, to: int) -> Seq<char>
    decreases to - from,
{
    if from >= to {
        Seq::empty()
    } else {
        texts(events, from, to - 1) + match events[to - 1].kind {
            MarkdownKindView::Text(s) => s,
            _ => Seq::empty(),
        }
    }
}

/// Whether a node reaches from one byte to another, and belongs to no other.
pub open spec fn reaches(node: DocumentNodeView, from: usize, to: usize) -> bool {
    &&& node.span == (from..to)
    &&& node.parent_name is None && node.parent_handle_id is None && node.parent_node_type is None
        && node.parent_span is None
}

/// Whether a node is that of the code block from event `i` to event `j`: it reaches
/// from the start of the one to the end of the other, with the language that the
/// fence names.
pub open spec fn is_code_block(
    node: DocumentNodeView,
    events: Seq<MarkdownEventView>,
    i: int,
    j: int,
) -> bool {
    &&& reaches(node, events[i].start, events[j].end)
    &&& node.node_type == NodeType::CodeBlock
    &&& node.metadata matches NodeMetadataView::CodeBlock { language } && match events[i].kind {
        MarkdownKindView::CodeStart(Some(info)) => if info.len() > 0 {
            language == Some(info)
        } else {
            language is None
        },
        _ => language is None,
    }
}

/// Whether a node is that of the paragraph from event `i` to event `j`.
pub open spec fn is_paragraph(
    node: DocumentNodeView,
    events: Seq<MarkdownEventView>,
    i: int,
    j: int,
) -> bool {
    &&& reaches(node, events[i].start, events[j].end)
    &&& node.node_type == NodeType::Paragraph && node.metadata is Paragraph
}

/// Whether a node is that of the section whose heading ends at event `e` and that
/// lasts up to event `n`: to the start of the next heading, or to the end of the text.
pub open spec fn is_section(
    node: DocumentNodeView,
    events: Seq<MarkdownEventView>,
    e: int,
    n: int,
    source: Seq<char>,
) -> bool {
    &&& reaches(
        node,
        events[e].start,
        if n < events.len() {
            events[n].start
        } else {
            text::byte_len(source) as usize
        },
    )
    &&& node.node_type == NodeType::Section
    &&& node.metadata matches NodeMetadataView::Section { heading, level } && forall|h: int|
        #[trigger]
        heading_open(events, h, e) ==> heading == texts(events, h + 1, e) && events[h].kind
            == MarkdownKindView::HeadingStart(level)
}

/// Whether something that has a node ends at event `n`.
pub open spec fn closes(events: Seq<MarkdownEventView>, n: int) -> bool {
    if n == events.len() || events[n].kind is HeadingStart {
        exists|e: int| #[trigger] section_open(events, e, n)
    } else if events[n].kind is CodeEnd {
        exists|i: int| #[trigger] code_open(events, i, n)
    } else {
        events[n].kind is ParagraphEnd && exists|i: int| #[trigger] paragraph_open(events, i, n)
    }
}

/// Whether a node is that of what ends at event `n`.
pub open spec fn is_closed_by(
    node: DocumentNodeView,
    events: Seq<MarkdownEventView>,
    n: int,
    source: Seq<char>,
) -> bool {
    if n == events.len() || events[n].kind is HeadingStart {
        forall|e: int| #[trigger]
            section_open(events, e, n) ==> is_section(node, events, e, n, source)
    } else if events[n].kind is CodeEnd {
        forall|i: int| #[trigger] code_open(events, i, n) ==> is_code_block(node, events, i, n)
    } else {
        forall|i: int| #[trigger] paragraph_open(events, i, n) ==> is_paragraph(node, events, i, n)
    }
}

/// Whether a heading and its level are those from event `h` to event `e`.
spec fn is_heading(
    heading: Option<(Seq<char>, u8)>,
    events: Seq<MarkdownEventView>,
    h: int,
    e: int,
) -> bool {
    match heading {
        Some((words, level)) => words == texts(events, h + 1, e) && events[h].kind
            == MarkdownKindView::HeadingStart(level),
        None => false,
    }
}

/// What the state holds before event `n` is what is open there.
spec fn holds_open(events: Seq<MarkdownEventView>, n: int, source: Seq<char>) -> bool {
    let state = markdown::state_after(events.take(n), source);
    &&& forall|i: int| #[trigger]
        code_open(events, i, n) ==> state.code_start == Some(events[i].start)
            && state.code_language == match events[i].kind {
            MarkdownKindView::CodeStart(Some(info)) => if info.len() > 0 {
                Some(info)
            } else {
                None
            },
            _ => None,
        }
    &&& state.code_start is Some ==> exists|i: int| #[trigger] code_open(events, i, n)
    &&& forall|i: int| #[trigger]
        paragraph_open(events, i, n) ==> state.paragraph_start == Some(events[i].start)
    &&& state.paragraph_start is Some ==> exists|i: int| #[trigger] paragraph_open(events, i, n)
    &&& forall|h: int| #[trigger]
        heading_open(events, h, n) ==> state.in_heading && state.heading_text == texts(
            events,
            h + 1,
            n,
        ) && events[h].kind == MarkdownKindView::HeadingStart(state.heading_level)
    &&& forall|e: int| #[trigger]
        section_open(events, e, n) ==> state.section_start == Some(events[e].start)
            && state.heading is Some && forall|h: int| #[trigger]
            heading_open(events, h, e) ==> is_heading(state.heading, events, h, e)
    &&& state.section_start is Some && state.heading is Some ==> exists|e: int| #[trigger]
        section_open(events, e, n)
}

/// What is open after one more event was open before it, or starts with it.
proof fn lemma_open_step(events: Seq<MarkdownEventView>, n: int)
    requires
        0 <= n < events.len(),
    ensures
        forall|i: int| #[trigger]
            code_open(events, i, n + 1) <==> (if events[n].kind is CodeStart {
                i == n
            } else {
                code_open(events, i, n) && !(events[n].kind is CodeEnd)
            }),
        forall|i: int| #[trigger]
            paragraph_open(events, i, n + 1) <==> (if events[n].kind is ParagraphStart {
                i == n
            } else {
                paragraph_open(events, i, n) && !(events[n].kind is ParagraphEnd)
            }),
        forall|i: int| #[trigger]
            heading_open(events, i, n + 1) <==> (if events[n].kind is HeadingStart {
                i == n
            } else {
                heading_open(events, i, n) && !(events[n].kind is HeadingEnd)
            }),
        forall|i: int| #[trigger]
            section_open(events, i, n + 1) <==> (if events[n].kind is HeadingEnd {
                i == n
            } else {
                section_open(events, i, n) && !(events[n].kind is HeadingStart)
            }),
{
}

proof fn lemma_holds_open(events: Seq<MarkdownEventView>, n: int, source: Seq<char>)
    requires
        0 <= n <= events.len(),
    ensures
        holds_open(events, n, source),
    decreases n,
{
    if n > 0 {
        lemma_holds_open(events, n - 1, source);
        lemma_open_step(events, n - 1);
        let upto = events.take(n);
        assert(upto.drop_last() =~= events.take(n - 1));
        let event = events[n - 1];
        assert(upto.last() == event);
        let before = markdown::state_after(events.take(n - 1), source);
        let state = markdown::state_after(upto, source);
        assert(state == markdown::next_state(before, event, source));
        assert forall|h: int| #[trigger] heading_open(events, h, n) implies state.in_heading
            && state.heading_text == texts(events, h + 1, n) && events[h].kind
            == MarkdownKindView::HeadingStart(state.heading_level) by {
            if h < n - 1 {
                assert(heading_open(events, h, n - 1));
                assert(texts(events, h + 1, n - 1) + Seq::<char>::empty() =~= texts(
                    events,
                    h + 1,
                    n - 1,
                ));
            }
        }
        assert forall|i: int| #[trigger] code_open(events, i, n) implies state.code_start == Some(
            events[i].start,
        ) && state.code_language == match events[i].kind {
            MarkdownKindView::CodeStart(Some(info)) => if info.len() > 0 {
                Some(info)
            } else {
                None
            },
            _ => None,
        } by {
            if i < n - 1 {
                assert(code_open(events, i, n - 1));
            }
        }
        assert forall|i: int| #[trigger] paragraph_open(events, i, n) implies state.paragraph_start
            == Some(events[i].start) by {
            if i < n - 1 {
                assert(paragraph_open(events, i, n - 1));
            }
        }
        if state.code_start is Some {
            if event.kind is CodeStart {
                assert(code_open(events, n - 1, n));
            } else {
                let i = choose|i: int| #[trigger] code_open(events, i, n - 1);
                assert(code_open(events, i, n));
            }
        }
        if state.paragraph_start is Some {
            if event.kind is ParagraphStart {
                assert(paragraph_open(events, n - 1, n));
            } else {
                let i = choose|i: int| #[trigger] paragraph_open(events, i, n - 1);
                assert(paragraph_open(events, i, n));
            }
        }
        if state.section_start is Some && state.heading is Some {
            if event.kind is HeadingEnd {
                assert(section_open(events, n - 1, n));
            } else {
                let e = choose|e: int| #[trigger] section_open(events, e, n - 1);
                assert(section_open(events, e, n));
            }
        }
        assert forall|e: int| #[trigger] section_open(events, e, n) implies state.section_start
            == Some(events[e].start) && state.heading is Some && forall|h: int| #[trigger]
            heading_open(events, h, e) ==> is_heading(state.heading, events, h, e) by {
            if e < n - 1 {
                assert(section_open(events, e, n - 1));
            }
        }
    }
}

/// The nodes that are complete before event `n` are those of what ended before it.
proof fn lemma_complete(events: Seq<MarkdownEventView>, n: int, source: Seq<char>) -> (at: Seq<int>)
    requires
        0 <= n <= events.len(),
    ensures
        ({
            let nodes = markdown::state_after(events.take(n), source).nodes;
            &&& nodes.len() == at.len()
            &&& forall|k: int|
                0 <= k < at.len() ==> 0 <= #[trigger] at[k] < n && closes(events, at[k])
                    && is_closed_by(nodes[k], events, at[k], source)
            &&& forall|k: int, l: int| 0 <= k < l < at.len() ==> #[trigger] at[k] < #[trigger] at[l]
            &&& forall|j: int| 0 <= j < n && #[trigger] closes(events, j) ==> at.contains(j)
        }),
    decreases n,
{
    if n == 0 {
        Seq::empty()
    } else {
        let before = lemma_complete(events, n - 1, source);
        lemma_holds_open(events, n - 1, source);
        let upto = events.take(n);
        assert(upto.drop_last() =~= events.take(n - 1));
        let event = events[n - 1];
        assert(upto.last() == event);
        let state = markdown::state_after(events.take(n - 1), source);
        let nodes = markdown::state_after(upto, source).nodes;
        assert(nodes == markdown::next_state(state, event, source).nodes);
        if closes(events, n - 1) {
            let at = before.push(n - 1);
            assert(nodes.len() == state.nodes.len() + 1);
            assert forall|k: int| 0 <= k < state.nodes.len() implies nodes[k]
                == state.nodes[k] by {}
            assert(is_closed_by(nodes.last(), events, n - 1, source));
            assert forall|j: int| 0 <= j < n && #[trigger] closes(events, j) implies at.contains(
                j,
            ) by {
                if j < n - 1 {
                    let k = before.index_of(j);
                    assert(at[k] == j);
                } else {
                    assert(at[before.len() as int] == j);
                }
            }
            at
        } else {
            assert(nodes == state.nodes);
            before
        }
    }
}

/// The nodes of a Markdown text are one for each code block, paragraph and section
/// that ends in it, in the order in which they end: `at` gives the event that ends
/// each. Each reaches from where it starts to where it ends.
pub proof fn law_blocks_indexed(events: Seq<MarkdownEventView>, source: Seq<char>) -> (at: Seq<int>)
    ensures
        ({
            let nodes = markdown::markdown_nodes(events, source);
            &&& nodes.len() == at.len()
            &&& forall|k: int|
                0 <= k < at.len() ==> 0 <= #[trigger] at[k] <= events.len() && closes(
                    events,
                    at[k],
                ) && is_closed_by(nodes[k], events, at[k], source)
            &&& forall|k: int, l: int| 0 <= k < l < at.len() ==> #[trigger] at[k] < #[trigger] at[l]
            &&& forall|j: int|
                0 <= j <= events.len() && #[trigger] closes(events, j) ==> at.contains(j)
        }),
{
    let n = events.len() as int;
    let before = lemma_complete(events, n, source);
    lemma_holds_open(events, n, source);
    assert(events.take(n) =~= events);
    let state = markdown::state_after(events, source);
    let nodes = markdown::markdown_nodes(events, source);
    if closes(events, n) {
        let at = before.push(n);
        assert(nodes.len() == state.nodes.len() + 1);
        assert(is_closed_by(nodes.last(), events, n, source));
        assert forall|j: int| 0 <= j <= n && #[trigger] closes(events, j) implies at.contains(
            j,
        ) by {
            if j < n {
                let k = before.index_of(j);
                assert(at[k] == j);
            } else {
                assert(at[before.len() as int] == j);
            }
        }
        at
    } else {
        assert(nodes == state.nodes);
        before
    }
}

/// A code block has a node that reaches over all that lies between its start and its
/// end, so that its text holds the code.
pub proof fn law_code_block_whole(
    events: Seq<MarkdownEventView>,
    source: Seq<char>,
    i: int,
    j: int,
)
    requires
        code_open(events, i, j),
        j < events.len() && events[j].kind is CodeEnd,
        forall|k: int|
            i <= k <= j ==> events[i].start <= (#[trigger] events[k]).start && events[k].end
                <= events[j].end,
    ensures
        exists|node: DocumentNodeView|
            {
                &&& #[trigger] markdown::markdown_nodes(events, source).contains(node)
                &&& is_code_block(node, events, i, j)
                &&& forall|k: int|
                    i <= k <= j ==> node.span.start <= (#[trigger] events[k]).start
                        && events[k].end <= node.span.end
            },
{
    let at = law_blocks_indexed(events, source);
    assert(closes(events, j));
    let k = at.index_of(j);
    assert(at[k] == j);
    let node = markdown::markdown_nodes(events, source)[k];
    assert(is_code_block(node, events, i, j));
    assert(markdown::markdown_nodes(events, source).contains(node));
}

} // verus!
