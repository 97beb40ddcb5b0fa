//! Line numbers, and the parsers that go by lines alone.

use vstd::prelude::*;
use vstd::utf8::*;
use crate::document;
use crate::document::{DocumentNode, DocumentNodeView, NodeMetadata, NodeMetadataView, NodeType, Span};
use crate::strings;
use crate::strings::{find_char, lines};
use crate::text;
use crate::text::{char_width, len_bytes, slice_bytes, to_chars};

verus! {

broadcast use {vstd::string::group_string_axioms, vstd::seq::group_seq_axioms};

/// The number of line feeds.
pub open spec fn line_feeds(s: Seq<char>) -> nat
    decreases s.len(),
{
    if s.len() == 0 {
        0
    } else {
        line_feeds(s.drop_last()) + if s.last() == '\n' {
            1nat
        } else {
            0
        }
    }
}

/// Whether the lines of a text can be numbered from one.
pub open spec fn countable(source: Seq<char>) -> bool {
    text::byte_len(source) < usize::MAX
}

/// The smaller of an offset and the length of `source`.
pub open spec fn clamped(source: Seq<char>, i: usize) -> int {
    if i <= text::byte_len(source) {
        i as int
    } else {
        text::byte_len(source) as int
    }
}

/// The number of the line that the byte offset `i` is in, counted from one.
pub open spec fn line_number(source: Seq<char>, i: usize) -> usize {
    (line_feeds(text::byte_slice(source, 0, clamped(source, i))) + 1) as usize
}

/// The numbers of the lines that a span starts and ends in.
pub open spec fn line_range(source: Seq<char>, span: Span) -> (usize, usize) {
    (line_number(source, span.start), line_number(source, span.end))
}

proof fn lemma_line_feeds_bound(s: Seq<char>)
    ensures
        line_feeds(s) <= s.len(),
    decreases s.len(),
{
    if s.len() > 0 {
        lemma_line_feeds_bound(s.drop_last());
    }
}

fn line_at(source: &str, i: usize) -> (r: usize)
    requires
        countable(source@),
        text::on_boundary(source@, clamped(source@, i)),
    ensures
        r == line_number(source@, i),
        r == line_feeds(text::byte_slice(source@, 0, clamped(source@, i))) + 1,
{
    let n: usize = len_bytes(source);
    let end: usize = if i <= n {
        i
    } else {
        n
    };
    proof {
        text::lemma_prefix_boundary(source@, 0);
        assert(source@.take(0) =~= Seq::<char>::empty());
        text::lemma_byte_slice(source@, 0, end as int);
    }
    let head: &str = slice_bytes(source, 0, end);
    let chars: Vec<char> = to_chars(head);
    let mut count: usize = 0;
    let mut k: usize = 0;
    proof {
        text::lemma_byte_len_lower(head@);
        assert(chars@.take(0) =~= Seq::<char>::empty());
    }
    while k < chars.len()
        invariant
            k <= chars@.len(),
            count == line_feeds(chars@.take(k as int)),
            count <= k,
            chars@.len() < usize::MAX,
        decreases chars@.len() - k,
    {
        assert(chars@.take(k + 1).drop_last() =~= chars@.take(k as int));
        if chars[k] == '\n' {
            count = count + 1;
        }
        k = k + 1;
    }
    assert(chars@.take(chars@.len() as int) =~= head@);
    count + 1
}

/// The numbers of the lines that a span starts and ends in, counted from one.
pub fn span_to_line_range(source: &str, span: &Span) -> (r: (usize, usize))
    requires
        countable(source@),
        text::on_boundary(source@, clamped(source@, span.start)),
        text::on_boundary(source@, clamped(source@, span.end)),
    ensures
        r == line_range(source@, *span),
{
    (line_at(source, span.start), line_at(source, span.end))
}

/// Where the line after the first `n` lines starts, or the end of the text.
pub open spec fn line_start(s: Seq<char>, n: int) -> int
    decreases n,
{
    if n <= 0 {
        0
    } else {
        let end = strings::find_from(s, '\n', line_start(s, n - 1));
        if end < s.len() {
            end + 1
        } else {
            s.len() as int
        }
    }
}

/// The number of bytes of the first `n` lines, each with its end.
pub open spec fn lines_len(source: Seq<char>, n: int) -> nat {
    text::byte_len(source.take(line_start(source, n)))
}

/// The number of lines from one chunk to the next: the lines of a chunk less
/// the overlap, but at least one.
pub open spec fn chunk_step(chunk_lines: nat, chunk_overlap: nat) -> nat {
    if chunk_lines > chunk_overlap {
        (chunk_lines - chunk_overlap) as nat
    } else {
        1
    }
}

/// The line after the last line of a chunk that starts at line `i`.
pub open spec fn chunk_end(count: nat, i: nat, chunk_lines: nat) -> nat {
    if i + chunk_lines <= count {
        i + chunk_lines
    } else {
        count
    }
}

/// The `k`th chunk, which starts at line `i`, both counted from zero. Its span is
/// that of its lines with their ends.
pub open spec fn chunk_node(source: Seq<char>, k: nat, i: nat, chunk_lines: nat) -> DocumentNodeView {
    let end = chunk_end(strings::lines_spec(source).len(), i, chunk_lines);
    DocumentNodeView::top(
        (lines_len(source, i as int) as usize)..(lines_len(source, end as int) as usize),
        ((i + 1) as usize, end as usize),
        NodeMetadataView::Chunk { index: k as usize },
    )
}

/// The first `n` chunks.
pub open spec fn chunk_nodes(
    source: Seq<char>,
    n: nat,
    chunk_lines: nat,
    chunk_overlap: nat,
) -> Seq<DocumentNodeView> {
    Seq::new(
        n,
        |k: int|
            chunk_node(
                source,
                k as nat,
                (k * chunk_step(chunk_lines, chunk_overlap)) as nat,
                chunk_lines,
            ),
    )
}

/// The number of chunks: one for each step that starts at a line.
pub open spec fn is_chunk_count(
    source: Seq<char>,
    n: nat,
    chunk_lines: nat,
    chunk_overlap: nat,
) -> bool {
    let step = chunk_step(chunk_lines, chunk_overlap);
    let count = strings::lines_spec(source).len();
    &&& n * step >= count
    &&& n > 0 ==> (n - 1) * step < count
}

/// Lines start one after the other, within the text.
pub proof fn lemma_line_start(s: Seq<char>, n: int)
    ensures
        0 <= line_start(s, n) <= s.len(),
        n >= 0 && line_start(s, n) < s.len() ==> line_start(s, n) < line_start(s, n + 1),
        n >= 0 ==> line_start(s, n) <= line_start(s, n + 1),
    decreases n,
{
    if n > 0 {
        lemma_line_start(s, n - 1);
        strings::lemma_find_from(s, '\n', line_start(s, n - 1));
    }
    strings::lemma_find_from(s, '\n', line_start(s, n));
}

proof fn lemma_line_start_mono(s: Seq<char>, a: int, b: int)
    requires
        0 <= a <= b,
    ensures
        line_start(s, a) <= line_start(s, b),
    decreases b - a,
{
    if a < b {
        lemma_line_start_mono(s, a, b - 1);
        lemma_line_start(s, b - 1);
    }
}

/// After the first line, the lines are those of the rest.
proof fn lemma_line_start_skip(s: Seq<char>, n: int)
    requires
        n >= 0,
        strings::find_from(s, '\n', 0) < s.len(),
    ensures
        line_start(s, n + 1) == line_start(s.skip(strings::find_from(s, '\n', 0) + 1), n)
            + strings::find_from(s, '\n', 0) + 1,
    decreases n,
{
    let first = strings::find_from(s, '\n', 0) + 1;
    let rest = s.skip(first);
    strings::lemma_find_from(s, '\n', 0);
    reveal_with_fuel(line_start, 2);
    if n > 0 {
        lemma_line_start_skip(s, n - 1);
        lemma_line_start(rest, n - 1);
        strings::lemma_find_skip(s, '\n', first, line_start(s, n));
    }
}

/// A text has as many lines as start before its end.
pub proof fn lemma_line_count(s: Seq<char>)
    ensures
        line_start(s, strings::lines_spec(s).len() as int) == s.len(),
        forall|k: int|
            0 <= k < strings::lines_spec(s).len() ==> #[trigger] line_start(s, k) < s.len(),
        strings::lines_spec(s).len() <= s.len(),
    decreases s.len(),
{
    let all = strings::lines_spec(s);
    let i = strings::find_from(s, '\n', 0);
    strings::lemma_find_from(s, '\n', 0);
    reveal_with_fuel(line_start, 2);
    if s.len() == 0 {
    } else if i >= s.len() {
        assert(all =~= seq![s]);
    } else {
        let rest = s.skip(i + 1);
        let tail = strings::lines_spec(rest);
        lemma_line_count(rest);
        assert(all =~= seq![strings::strip_cr(s.take(i))] + tail);
        lemma_line_start_skip(s, tail.len() as int);
        assert forall|k: int| 0 <= k < all.len() implies #[trigger] line_start(s, k) < s.len() by {
            if k > 0 {
                lemma_line_start_skip(s, k - 1);
                assert(line_start(rest, k - 1) < rest.len());
            }
        }
    }
}

/// The number of bytes of the characters from `from` to `to`.
fn width_of(chars: &Vec<char>, from: usize, to: usize) -> (r: usize)
    requires
        from <= to <= chars@.len(),
        text::byte_len(chars@) <= usize::MAX,
    ensures
        r == text::byte_len(chars@.subrange(from as int, to as int)),
{
    let mut width: usize = 0;
    let mut i: usize = from;
    assert(chars@.subrange(from as int, from as int) =~= Seq::<char>::empty());
    while i < to
        invariant
            from <= i <= to <= chars@.len(),
            text::byte_len(chars@) <= usize::MAX,
            width == text::byte_len(chars@.subrange(from as int, i as int)),
        decreases to - i,
    {
        proof {
            let now = chars@.subrange(from as int, i as int);
            text::lemma_encode_push(now, chars@[i as int]);
            assert(chars@.subrange(from as int, i + 1) =~= now.push(chars@[i as int]));
            text::lemma_char_range(chars@, from as int, i + 1);
        }
        width = width + char_width(chars[i]);
        i = i + 1;
    }
    width
}

/// Line-based chunks of a text.
pub fn parse_as_chunks(source: &str, chunk_lines: usize, chunk_overlap: usize) -> (r: Vec<
    DocumentNode,
>)
    ensures
        is_chunk_count(source@, r@.len(), chunk_lines as nat, chunk_overlap as nat),
        text::views(r@) == chunk_nodes(
            source@,
            r@.len(),
            chunk_lines as nat,
            chunk_overlap as nat,
        ),
{
    let total: usize = len_bytes(source);
    let chars: Vec<char> = to_chars(source);
    let n: usize = chars.len();
    let ghost line_total = strings::lines_spec(source@).len();
    let step: usize = if chunk_lines > chunk_overlap {
        chunk_lines - chunk_overlap
    } else {
        1
    };
    // `offsets[i]` is the number of bytes of the first `i` lines.
    let mut offsets: Vec<usize> = Vec::new();
    offsets.push(0);
    let mut count: usize = 0;
    let mut from: usize = 0;
    proof {
        lemma_line_count(source@);
        assert(source@.take(0) =~= Seq::<char>::empty());
    }
    while from < n
        invariant
            n == chars@.len(),
            chars@ == source@,
            total == text::byte_len(source@),
            line_total == strings::lines_spec(source@).len(),
            line_start(source@, line_total as int) == n,
            forall|k: int| 0 <= k < line_total ==> #[trigger] line_start(source@, k) < n,
            line_total <= n,
            count <= line_total,
            from == line_start(source@, count as int),
            offsets@.len() == count + 1,
            forall|j: int| 0 <= j <= count ==> #[trigger] offsets@[j] == lines_len(source@, j),
        decreases n - from,
    {
        let end: usize = find_char(&chars, '\n', from);
        let next: usize = if end < n {
            end + 1
        } else {
            n
        };
        proof {
            assert(next == line_start(source@, count + 1));
            text::lemma_char_range(source@, from as int, next as int);
            text::lemma_char_range(source@, next as int, n as int);
            assert(source@.take(n as int) =~= source@);
            assert(offsets@[count as int] == lines_len(source@, count as int));
        }
        let offset: usize = offsets[count] + width_of(&chars, from, next);
        offsets.push(offset);
        from = next;
        count = count + 1;
    }
    assert(count == line_total);
    let mut nodes: Vec<DocumentNode> = Vec::new();
    let mut i: usize = 0;
    assert(text::views(nodes@) =~= chunk_nodes(
        source@,
        0,
        chunk_lines as nat,
        chunk_overlap as nat,
    ));
    assert(0 * step == 0);
    while i < count
        invariant
            count == strings::lines_spec(source@).len(),
            step == chunk_step(chunk_lines as nat, chunk_overlap as nat),
            step >= 1,
            offsets@.len() == count + 1,
            forall|j: int| 0 <= j <= count ==> #[trigger] offsets@[j] == lines_len(source@, j),
            text::views(nodes@) == chunk_nodes(
                source@,
                nodes@.len(),
                chunk_lines as nat,
                chunk_overlap as nat,
            ),
            i < count ==> i == nodes@.len() * step,
            i < count ==> nodes@.len() <= i,
            i >= count ==> is_chunk_count(
                source@,
                nodes@.len(),
                chunk_lines as nat,
                chunk_overlap as nat,
            ),
            nodes@.len() > 0 && i < count ==> (nodes@.len() - 1) * step < count,
        decreases count - i,
    {
        let end: usize = if chunk_lines <= count - i {
            i + chunk_lines
        } else {
            count
        };
        let node: DocumentNode = DocumentNode::top(
            NodeType::Chunk,
            offsets[i]..offsets[end],
            (i + 1, end),
            NodeMetadata::Chunk { index: nodes.len() },
        );
        let ghost made = nodes@.len();
        proof {
            assert(offsets@[i as int] == lines_len(source@, i as int));
            assert(offsets@[end as int] == lines_len(source@, end as int));
            assert(node@ == chunk_node(source@, made, i as nat, chunk_lines as nat));
            text::lemma_views_push(nodes@, node);
            assert(text::views(nodes@.push(node)) =~= chunk_nodes(
                source@,
                made + 1,
                chunk_lines as nat,
                chunk_overlap as nat,
            ));
            assert((made + 1) * step == made * step + step) by (nonlinear_arith);
        }
        nodes.push(node);
        if step <= count - i {
            i = i + step;
        } else {
            i = count;
        }
    }
    nodes
}

/// Every line of a text lies in a chunk, if chunks have lines at all.
pub proof fn law_chunks_cover(
    source: Seq<char>,
    n: nat,
    chunk_lines: nat,
    chunk_overlap: nat,
    line: nat,
)
    requires
        countable(source),
        chunk_lines > 0,
        is_chunk_count(source, n, chunk_lines, chunk_overlap),
        line < strings::lines_spec(source).len(),
    ensures
        exists|k: int|
            0 <= k < n && (#[trigger] chunk_nodes(
                source,
                n,
                chunk_lines,
                chunk_overlap,
            )[k]).line_range.0 <= line + 1 <= chunk_nodes(
                source,
                n,
                chunk_lines,
                chunk_overlap,
            )[k].line_range.1,
{
    let step = chunk_step(chunk_lines, chunk_overlap);
    let count = strings::lines_spec(source).len();
    let k = (line / step) as int;
    lemma_line_count(source);
    text::lemma_byte_len_lower(source);
    assert(k * step <= line < k * step + step && k >= 0) by (nonlinear_arith)
        requires
            k == line as int / step as int,
            step > 0,
    ;
    assert(k < n) by (nonlinear_arith)
        requires
            k * step <= line,
            line < count,
            n * step >= count,
            step > 0,
    ;
    let node = chunk_nodes(source, n, chunk_lines, chunk_overlap)[k];
    assert(node == chunk_node(source, k as nat, (k * step) as nat, chunk_lines));
    assert(node.line_range.0 <= line + 1 <= node.line_range.1);
}

/// What follows the first `n` lines has the other lines.
proof fn lemma_lines_skip(s: Seq<char>, n: int)
    requires
        0 <= n <= strings::lines_spec(s).len(),
    ensures
        strings::lines_spec(s.skip(line_start(s, n))) == strings::lines_spec(s).skip(n),
    decreases n,
{
    let all = strings::lines_spec(s);
    if n == 0 {
        assert(s.skip(0) =~= s);
        assert(all.skip(0) =~= all);
    } else {
        let i = strings::find_from(s, '\n', 0);
        strings::lemma_find_from(s, '\n', 0);
        if i >= s.len() {
            assert(all =~= seq![s]);
            lemma_line_count(s);
            assert(s.skip(s.len() as int) =~= Seq::<char>::empty());
            assert(all.skip(1) =~= Seq::<Seq<char>>::empty());
        } else {
            let rest = s.skip(i + 1);
            let tail = strings::lines_spec(rest);
            assert(all =~= seq![strings::strip_cr(s.take(i))] + tail);
            lemma_lines_skip(rest, n - 1);
            lemma_line_start_skip(s, n - 1);
            lemma_line_start(rest, n - 1);
            assert(s.skip(line_start(s, n)) =~= rest.skip(line_start(rest, n - 1)));
            assert(all.skip(n) =~= tail.skip(n - 1));
        }
    }
}

/// The text of the first `n` lines has those lines.
proof fn lemma_lines_take(s: Seq<char>, n: int)
    requires
        0 <= n <= strings::lines_spec(s).len(),
    ensures
        strings::lines_spec(s.take(line_start(s, n))) == strings::lines_spec(s).take(n),
    decreases n,
{
    let all = strings::lines_spec(s);
    let head = s.take(line_start(s, n));
    if n == 0 {
        assert(all.take(0) =~= Seq::<Seq<char>>::empty());
    } else {
        let i = strings::find_from(s, '\n', 0);
        strings::lemma_find_from(s, '\n', 0);
        if i >= s.len() {
            assert(all =~= seq![s]);
            lemma_line_count(s);
            assert(head =~= s);
            assert(all.take(1) =~= all);
        } else {
            let rest = s.skip(i + 1);
            let tail = strings::lines_spec(rest);
            assert(all =~= seq![strings::strip_cr(s.take(i))] + tail);
            lemma_lines_take(rest, n - 1);
            lemma_line_start_skip(s, n - 1);
            lemma_line_start(rest, n - 1);
            assert(head.skip(i + 1) =~= rest.take(line_start(rest, n - 1)));
            assert(head.take(i) =~= s.take(i));
            strings::lemma_find_from(head, '\n', 0);
            assert(head[i] == '\n');
            assert(strings::find_from(head, '\n', 0) == i) by {
                let at = strings::find_from(head, '\n', 0);
                if at < i {
                    assert(head[at] == s[at]);
                }
            }
            assert(all.take(n) =~= seq![strings::strip_cr(s.take(i))] + tail.take(n - 1));
        }
    }
}

/// The span of a chunk lies between characters of the text, and what stands there
/// are the lines of the chunk and nothing else.
pub proof fn law_chunk_text(
    source: Seq<char>,
    n: nat,
    chunk_lines: nat,
    chunk_overlap: nat,
    k: int,
)
    requires
        countable(source),
        is_chunk_count(source, n, chunk_lines, chunk_overlap),
        0 <= k < n,
    ensures
        document::span_fits(source, chunk_nodes(source, n, chunk_lines, chunk_overlap)[k].span),
        ({
            let node = chunk_nodes(source, n, chunk_lines, chunk_overlap)[k];
            strings::lines_spec(
                text::byte_slice(source, node.span.start as int, node.span.end as int),
            ) == strings::lines_spec(source).subrange(
                node.line_range.0 - 1,
                node.line_range.1 as int,
            )
        }),
{
    let all = strings::lines_spec(source);
    let step = chunk_step(chunk_lines, chunk_overlap);
    let i = k * step;
    let node = chunk_nodes(source, n, chunk_lines, chunk_overlap)[k];
    assert(0 <= i < all.len()) by (nonlinear_arith)
        requires
            i == k * step,
            0 <= k <= n - 1,
            (n - 1) * step < all.len(),
            step > 0,
    ;
    let end = chunk_end(all.len(), i as nat, chunk_lines) as int;
    let from = line_start(source, i);
    let to = line_start(source, end);
    lemma_line_start(source, i);
    lemma_line_start(source, end);
    lemma_line_start_mono(source, i, end);
    lemma_line_count(source);
    text::lemma_byte_len_lower(source);
    text::lemma_char_range(source, from, to);
    text::lemma_prefix_boundary(source, from);
    text::lemma_prefix_boundary(source, to);
    assert(node == chunk_node(source, k as nat, i as nat, chunk_lines));
    lemma_lines_take(source, end);
    let head = source.take(to);
    lemma_line_start_take(source, end, i);
    lemma_lines_skip(head, i);
    assert(head.skip(from) =~= source.subrange(from, to));
    assert(all.take(end).skip(i) =~= all.subrange(i, end));
}

/// The first lines start in the text of the first `n` lines where they do in the
/// whole text.
proof fn lemma_line_start_take(s: Seq<char>, n: int, k: int)
    requires
        0 <= k <= n,
    ensures
        line_start(s.take(line_start(s, n)), k) == line_start(s, k),
    decreases k,
{
    if k > 0 {
        let head = s.take(line_start(s, n));
        lemma_line_start(s, n);
        lemma_line_start_take(s, n, k - 1);
        let from = line_start(s, k - 1);
        lemma_line_start(s, k - 1);
        lemma_line_start_mono(s, k, n);
        strings::lemma_find_from(s, '\n', from);
        strings::lemma_find_from(head, '\n', from);
        let end = strings::find_from(s, '\n', from);
        let at = strings::find_from(head, '\n', from);
        if end < s.len() {
            assert(head[end] == '\n');
            if at < end {
                assert(head[at] == s[at]);
            }
        } else if at < head.len() {
            assert(head[at] == s[at]);
        }
    }
}

/// The number of lines that a non-empty text is said to have.
pub open spec fn line_count(source: Seq<char>) -> nat {
    let n = strings::lines_spec(source).len();
    if n == 0 {
        1
    } else {
        n
    }
}

/// The whole text as one node; none for an empty text.
pub open spec fn single_node(source: Seq<char>) -> Seq<DocumentNodeView> {
    if source.len() == 0 {
        Seq::empty()
    } else {
        seq![
            DocumentNodeView::top(
                0usize..(text::byte_len(source) as usize),
                (1, line_count(source) as usize),
                NodeMetadataView::Chunk { index: 0 },
            ),
        ]
    }
}

/// The whole text as one node; none for an empty text.
pub fn parse_as_single_node(source: &str) -> (r: Vec<DocumentNode>)
    ensures
        text::views(r@) == single_node(source@),
{
    let mut nodes: Vec<DocumentNode> = Vec::new();
    if !source.is_empty() {
        let all: Vec<String> = lines(source);
        let count: usize = if all.len() == 0 {
            1
        } else {
            all.len()
        };
        assert(text::views(all@).len() == all@.len());
        let node: DocumentNode = DocumentNode::top(
            NodeType::Chunk,
            0..len_bytes(source),
            (1, count),
            NodeMetadata::Chunk { index: 0 },
        );
        proof {
            text::lemma_views_push(nodes@, node);
        }
        nodes.push(node);
    }
    assert(text::views(nodes@) =~= single_node(source@));
    nodes
}

/// Lines are counted from one, and a line break ends one.
pub proof fn law_line_number(source: Seq<char>, k: int)
    requires
        countable(source),
        0 <= k < source.len(),
    ensures
        line_number(source, 0) == 1,
        ({
            let at = text::byte_len(source.take(k)) as usize;
            let next = text::byte_len(source.take(k + 1)) as usize;
            line_number(source, next) == line_number(source, at) + if source[k] == '\n' {
                1int
            } else {
                0
            }
        }),
{
    assert(source.take(0) =~= Seq::<char>::empty());
    text::lemma_char_range(source, 0, 0);
    text::lemma_char_range(source, 0, k);
    text::lemma_char_range(source, 0, k + 1);
    text::lemma_byte_len_lower(source);
    assert(source.subrange(0, 0) =~= Seq::<char>::empty());
    assert(source.subrange(0, k) =~= source.take(k));
    assert(source.subrange(0, k + 1) =~= source.take(k + 1));
    assert(source.take(k + 1).drop_last() =~= source.take(k));
    lemma_line_feeds_bound(source.take(k));
    lemma_line_feeds_bound(source.take(k + 1));
    text::lemma_byte_len_lower(source.take(k + 1));
}

/// Chunks are numbered from zero. The first starts at the first line; each next one
/// starts so many lines further on that it shares the overlap with the one before, and
/// one line further on where the overlap is no less than a chunk. Each has as many lines
/// as a chunk has, or reaches to the last line.
pub proof fn law_chunk_steps(
    source: Seq<char>,
    n: nat,
    chunk_lines: nat,
    chunk_overlap: nat,
    k: int,
)
    requires
        countable(source),
        is_chunk_count(source, n, chunk_lines, chunk_overlap),
        0 <= k < n,
    ensures
        ({
            let nodes = chunk_nodes(source, n, chunk_lines, chunk_overlap);
            let count = strings::lines_spec(source).len();
            let first = nodes[k].line_range.0 as int;
            let last = nodes[k].line_range.1 as int;
            &&& nodes.len() == n
            &&& nodes[k].metadata == (NodeMetadataView::Chunk { index: k as usize })
            &&& nodes[0].line_range.0 == 1
            &&& first <= count
            &&& last == count && last <= first + chunk_lines - 1 || last < count && last == first
                + chunk_lines - 1
            &&& k + 1 < n ==> nodes[k + 1].line_range.0 == if chunk_lines > chunk_overlap {
                first + chunk_lines - chunk_overlap
            } else {
                first + 1
            }
        }),
{
    let step = chunk_step(chunk_lines, chunk_overlap);
    let count = strings::lines_spec(source).len();
    lemma_line_count(source);
    text::lemma_byte_len_lower(source);
    assert(0 <= k * step <= (n - 1) * step) by (nonlinear_arith)
        requires
            0 <= k <= n - 1,
            step >= 0,
    ;
    assert((k + 1) * step == k * step + step) by (nonlinear_arith);
    if k + 1 < n {
        assert((k + 1) * step <= (n - 1) * step) by (nonlinear_arith)
            requires
                k + 1 <= n - 1,
                step >= 0,
        ;
    }
    assert(0 * step == 0);
}

} // verus!
