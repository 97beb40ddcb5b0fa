//! The repository index: what goes into it, and what is made of what it holds.

use vstd::prelude::*;
use crate::document::{NodeType, Span};
use crate::error::CanopyError;
use crate::handle;
use crate::handle::generate_preview;
use crate::strings;
use crate::strings::{find_after_last, find_char, lines, trim};
use crate::text;
use crate::text::{from_chars, len_bytes, slice_bytes, str_eq, to_chars};

pub mod expand;
pub mod file_discovery;
pub mod pipeline;
pub mod retrieval;
pub mod search;
pub mod symbol_cache;

verus! {

broadcast use {vstd::string::group_string_axioms, vstd::seq::group_seq_axioms};

/// The version of the database's tables.
pub const SCHEMA_VERSION: i32 = 3;

/// Statistics from an indexing operation.
#[derive(Debug)]
pub struct IndexStats {
    pub files_indexed: usize,
    pub files_skipped: usize,
    pub total_tokens: usize,
    pub index_size_bytes: u64,
}

/// Index status information.
#[derive(Debug)]
pub struct IndexStatus {
    pub files_indexed: usize,
    pub total_tokens: usize,
    pub schema_version: i32,
    pub index_size_bytes: u64,
    pub last_indexed: Option<String>,
}

/// What is returned when a handle is expanded.
#[derive(Debug)]
pub struct ExpandedHandleDetail {
    pub handle_id: String,
    pub file_path: String,
    pub node_type: NodeType,
    pub token_count: usize,
    pub content: String,
}

/// What to do with a database, given the version of its tables: `true` to create
/// them, `false` to use them, an error where they are of another version.
pub fn check_schema_version(version: i32) -> (r: Result<bool, CanopyError>)
    ensures
        match r {
            Ok(create) => (version == 0 && create) || (version == SCHEMA_VERSION && !create),
            Err(e) => version != 0 && version != SCHEMA_VERSION && e
                == (CanopyError::SchemaVersionMismatch {
                found: version,
                expected: SCHEMA_VERSION,
            }),
        },
{
    if version != 0 && version != SCHEMA_VERSION {
        return Err(
            CanopyError::SchemaVersionMismatch { found: version, expected: SCHEMA_VERSION },
        );
    }
    Ok(version == 0)
}

// ---------------------------------------------------------------------------
// References
// ---------------------------------------------------------------------------

/// Whether one span is within another.
pub open spec fn encloses(outer: Span, inner: Span) -> bool {
    outer.start <= inner.start && inner.end <= outer.end
}

/// Whether the span of every node that encloses a span ends no earlier than it
/// starts, as it does where the enclosed span does.
pub open spec fn enclosing_ordered(nodes: Seq<(Span, i64)>, span: Span) -> bool {
    forall|i: int|
        0 <= i < nodes.len() && encloses((#[trigger] nodes[i]).0, span) ==> nodes[i].0.start
            <= nodes[i].0.end
}

/// Whether the node at `i` is the first of the smallest that enclose a span.
pub open spec fn is_smallest_at(nodes: Seq<(Span, i64)>, span: Span, i: int) -> bool {
    &&& 0 <= i < nodes.len()
    &&& encloses(nodes[i].0, span)
    &&& forall|j: int|
        0 <= j < nodes.len() && encloses((#[trigger] nodes[j]).0, span) ==> {
            let size = nodes[i].0.end - nodes[i].0.start;
            let other = nodes[j].0.end - nodes[j].0.start;
            if j < i {
                size < other
            } else {
                size <= other
            }
        }
}

/// Whether this is the node that encloses a span most closely, if there is one.
pub open spec fn is_smallest_enclosing(
    r: Option<i64>,
    span: Span,
    nodes: Seq<(Span, i64)>,
) -> bool {
    match r {
        Some(id) => exists|i: int| #[trigger] is_smallest_at(nodes, span, i) && nodes[i].1 == id,
        None => forall|i: int|
            0 <= i < nodes.len() ==> !encloses((#[trigger] nodes[i]).0, span),
    }
}

/// The smallest node that encloses a span, the first of those of one size.
pub fn find_smallest_enclosing_node(ref_span: &Span, nodes: &Vec<(Span, i64)>) -> (r: Option<i64>)
    requires
        enclosing_ordered(nodes@, *ref_span),
    ensures
        is_smallest_enclosing(r, *ref_span, nodes@),
{
    let mut best: Option<usize> = None;
    let mut i: usize = 0;
    while i < nodes.len()
        invariant
            i <= nodes@.len(),
            enclosing_ordered(nodes@, *ref_span),
            match best {
                Some(b) => b < i && is_smallest_at(nodes@.take(i as int), *ref_span, b as int),
                None => forall|k: int|
                    0 <= k < i ==> !encloses((#[trigger] nodes@[k]).0, *ref_span),
            },
        decreases nodes@.len() - i,
    {
        let span: &Span = &nodes[i].0;
        let ghost seen = nodes@.take(i as int);
        let ghost now = nodes@.take(i + 1);
        let inside: bool = span.start <= ref_span.start && ref_span.end <= span.end;
        let better: bool = match best {
            Some(b) => {
                assert(seen[b as int] == nodes@[b as int]);
                inside && span.end - span.start < nodes[b].0.end - nodes[b].0.start
            },
            None => inside,
        };
        proof {
            assert(now[i as int] == nodes@[i as int]);
            assert(forall|k: int| 0 <= k < i ==> now[k] == seen[k] && now[k] == nodes@[k]);
        }
        if better {
            best = Some(i);
        }
        i = i + 1;
    }
    assert(nodes@.take(nodes@.len() as int) =~= nodes@);
    match best {
        Some(b) => Some(nodes[b].1),
        None => None,
    }
}

/// A byte offset within a text, or its end.
pub open spec fn clamped(source: Seq<char>, i: usize) -> int {
    if i <= text::byte_len(source) {
        i as int
    } else {
        text::byte_len(source) as int
    }
}

/// The lines that a span stands in.
pub open spec fn line_span(source: Seq<char>, span: Span) -> Span {
    let len = text::byte_len(source) as int;
    let head = text::byte_slice(source, 0, clamped(source, span.start));
    let tail = text::byte_slice(source, clamped(source, span.end), len);
    Span {
        start: text::byte_len(
            head.take(strings::after_last(head, '\n', head.len() as int)),
        ) as usize,
        end: (clamped(source, span.end) + text::byte_len(
            tail.take(strings::find_from(tail, '\n', 0)),
        )) as usize,
    }
}

/// The preview of a reference: of the lines that it stands in.
pub open spec fn line_preview(source: Seq<char>, span: Span, max_bytes: int) -> Seq<char> {
    handle::preview_spec(source, line_span(source, span), max_bytes)
}

/// The preview of a reference: of the lines that it stands in.
pub fn reference_preview(source: &str, span: &Span, max_bytes: usize) -> (r: String)
    requires
        text::on_boundary(source@, clamped(source@, span.start)),
        text::on_boundary(source@, clamped(source@, span.end)),
    ensures
        r@ == line_preview(source@, *span, max_bytes as int),
{
    let len: usize = len_bytes(source);
    let start: usize = if span.start <= len {
        span.start
    } else {
        len
    };
    let end: usize = if span.end <= len {
        span.end
    } else {
        len
    };
    proof {
        handle::lemma_end_boundary(source@);
    }
    let head: &str = slice_bytes(source, 0, start);
    let head_chars: Vec<char> = to_chars(head);
    let after: usize = find_after_last(&head_chars, '\n', head_chars.len());
    let before_line: String = from_chars(&head_chars, 0, after);
    assert(before_line@ =~= head@.take(after as int));
    let tail: &str = slice_bytes(source, end, len);
    let tail_chars: Vec<char> = to_chars(tail);
    let newline: usize = find_char(&tail_chars, '\n', 0);
    let rest_of_line: String = from_chars(&tail_chars, 0, newline);
    proof {
        assert(rest_of_line@ =~= tail@.take(newline as int));
        text::lemma_encode_add(tail@.take(newline as int), tail@.skip(newline as int));
        assert(tail@.take(newline as int) + tail@.skip(newline as int) =~= tail@);
    }
    let line: Span = Span {
        start: len_bytes(before_line.as_str()),
        end: end + len_bytes(rest_of_line.as_str()),
    };
    generate_preview(source, &line, max_bytes)
}

// ---------------------------------------------------------------------------
// The repository
// ---------------------------------------------------------------------------

/// Whether a line makes git ignore the index.
pub open spec fn ignores_index(line: Seq<char>) -> bool {
    strings::trim_spec(line) == ".canopy"@ || strings::trim_spec(line) == ".canopy/"@
}

/// Whether a line of a text makes git ignore the index.
pub open spec fn has_ignore_line(content: Seq<char>) -> bool {
    let all = strings::lines_spec(content);
    exists|i: int| 0 <= i < all.len() && ignores_index(#[trigger] all[i])
}

/// What is added to a `.gitignore` file so that git ignores the index: nothing
/// where it does. Without such a file it is the content of a new one.
pub fn gitignore_addition(content: &Option<String>) -> (r: Option<&'static str>)
    ensures
        match *content {
            Some(c) => if has_ignore_line(c@) {
                r is None
            } else {
                r matches Some(added) && added@ == "\n# Canopy index\n.canopy/\n"@
            },
            None => r matches Some(added) && added@ == "# Canopy index\n.canopy/\n"@,
        },
{
    match content {
        Some(c) => {
            let found: Vec<String> = lines(c.as_str());
            let ghost all = strings::lines_spec(c@);
            let mut i: usize = 0;
            while i < found.len()
                invariant
                    i <= found@.len(),
                    *content == Some(*c),
                    all == text::views(found@),
                    all == strings::lines_spec(c@),
                    forall|k: int| 0 <= k < i ==> !ignores_index(#[trigger] all[k]),
                decreases found@.len() - i,
            {
                assert(all[i as int] == found@[i as int]@);
                let line: String = trim(found[i].as_str());
                if str_eq(line.as_str(), ".canopy") || str_eq(line.as_str(), ".canopy/") {
                    return None;
                }
                i = i + 1;
            }
            Some("\n# Canopy index\n.canopy/\n")
        },
        None => Some("# Canopy index\n.canopy/\n"),
    }
}

/// A line that ignores the index counts wherever it stands among others.
proof fn lemma_ignored_after(x: Seq<char>, y: Seq<char>)
    requires
        has_ignore_line(y),
    ensures
        has_ignore_line(x.push('\n') + y),
    decreases x.len(),
{
    let i = strings::find_from(x, '\n', 0);
    strings::lemma_find_from(x, '\n', 0);
    if i >= x.len() {
        assert(!x.contains('\n'));
        strings::law_line_ends(x, y);
        assert(strings::lines_spec(x.push('\n') + y).drop_first() =~= strings::lines_spec(y));
        lemma_ignored_behind(x.push('\n') + y, y);
    } else {
        let a = x.take(i);
        let rest = x.skip(i + 1);
        let tail = rest.push('\n') + y;
        lemma_ignored_after(rest, y);
        assert(x.push('\n') + y =~= a.push('\n') + tail);
        assert(!a.contains('\n'));
        strings::law_line_ends(a, tail);
        assert(strings::lines_spec(a.push('\n') + tail).drop_first() =~= strings::lines_spec(tail));
        lemma_ignored_behind(a.push('\n') + tail, tail);
    }
}

proof fn lemma_ignored_behind(s: Seq<char>, y: Seq<char>)
    requires
        has_ignore_line(y),
        strings::lines_spec(s).len() == 1 + strings::lines_spec(y).len(),
        strings::lines_spec(s).drop_first() == strings::lines_spec(y),
    ensures
        has_ignore_line(s),
{
    let all = strings::lines_spec(y);
    let k = choose|k: int| 0 <= k < all.len() && ignores_index(#[trigger] all[k]);
    assert(strings::lines_spec(s)[k + 1] == all[k]);
}

/// What is added to the ignored paths has the index ignored, whatever they were.
pub proof fn law_index_ignored(content: Seq<char>)
    ensures
        has_ignore_line("# Canopy index\n.canopy/\n"@),
        has_ignore_line(content + "\n# Canopy index\n.canopy/\n"@),
{
    reveal_strlit("# Canopy index\n.canopy/\n");
    reveal_strlit("\n# Canopy index\n.canopy/\n");
    reveal_strlit("# Canopy index");
    reveal_strlit(".canopy/");
    let title = "# Canopy index"@;
    let line = ".canopy/"@;
    let none = Seq::<char>::empty();
    let last = line.push('\n') + none;
    let added = "# Canopy index\n.canopy/\n"@;
    assert(added =~= title.push('\n') + last);
    assert(!line.contains('\n'));
    assert(!title.contains('\n'));
    strings::law_line_ends(line, none);
    strings::law_trimmed(none, line, none);
    assert(none + line + none =~= line);
    assert(line.last() == '/');
    assert(strings::lines_spec(last)[0] == line);
    assert(ignores_index(line));
    lemma_ignored_after(title, last);
    assert(content + "\n# Canopy index\n.canopy/\n"@ =~= content.push('\n') + added);
    lemma_ignored_after(content, added);
}

/// A path that is ignored as the index is, with or without a slash at its end, counts; so
/// it does with white space around it.
pub proof fn law_either_form_ignores(before: Seq<char>, after: Seq<char>)
    requires
        forall|i: int| 0 <= i < before.len() ==> text::char_is_whitespace(#[trigger] before[i]),
        forall|i: int| 0 <= i < after.len() ==> text::char_is_whitespace(#[trigger] after[i]),
    ensures
        ignores_index(before + ".canopy"@ + after),
        ignores_index(before + ".canopy/"@ + after),
{
    reveal_strlit(".canopy");
    reveal_strlit(".canopy/");
    assert(".canopy"@[0] == '.' && ".canopy/"@[0] == '.');
    assert(".canopy"@.last() == 'y' && ".canopy/"@.last() == '/');
    strings::law_trimmed(before, ".canopy"@, after);
    strings::law_trimmed(before, ".canopy/"@, after);
}

/// A reference belongs to a node that holds all of it, no longer than any other that does,
/// and to none only where no node does.
pub proof fn law_reference_belongs(r: Option<i64>, span: Span, nodes: Seq<(Span, i64)>, j: int)
    requires
        is_smallest_enclosing(r, span, nodes),
        0 <= j < nodes.len(),
        nodes[j].0.start <= span.start && span.end <= nodes[j].0.end,
    ensures
        r is Some,
        exists|i: int|
            0 <= i < nodes.len() && (#[trigger] nodes[i]).1 == r->0 && nodes[i].0.start
                <= span.start && span.end <= nodes[i].0.end && nodes[i].0.end - nodes[i].0.start
                <= nodes[j].0.end - nodes[j].0.start,
{
    assert(encloses(nodes[j].0, span));
    if r is Some {
        let i = choose|i: int| #[trigger] is_smallest_at(nodes, span, i) && nodes[i].1 == r->0;
        assert(nodes[i].1 == r->0);
    }
}

} // verus!
