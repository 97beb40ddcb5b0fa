//! What the index gives back of what was put into it.

use vstd::prelude::*;
use crate::document;
use crate::document::{DocumentNodeView, NodeType, ReferenceView, Span};
use crate::globs;
use crate::handle;
use crate::handle::{HandleSource, HandleView};
use crate::index;
use crate::index::expand;
use crate::index::expand::IndexedFile;
use crate::index::file_discovery;
use crate::index::pipeline;
use crate::index::pipeline::{Candidate, NodeRowView, RefIndexRow};
use crate::index::search;
use crate::index::search::{HandleRow, RefRow};
use crate::index::symbol_cache;
use crate::index::symbol_cache::{CacheState, SymbolCacheEntry};
use crate::query::execute::SearchRequestView;
use crate::parse::bpe;
use crate::parse::lines;
use crate::strings;
use crate::text;

verus! {

broadcast use {vstd::string::group_string_axioms, vstd::seq::group_seq_axioms};

// ---------------------------------------------------------------------------
// Nodes
// ---------------------------------------------------------------------------

/// The row of a node holds what the node is: where it stands, its text, its name as
/// it is and in lower case, and those of what it belongs to.
pub proof fn law_row_holds_node(
    path: Seq<char>,
    source: Seq<char>,
    node: DocumentNodeView,
    preview_bytes: usize,
)
    ensures
        ({
            let row = pipeline::node_row(path, source, node, preview_bytes);
            &&& row.span == node.span && row.line_range == node.line_range && row.node_type
                == node.node_type
            &&& row.content == text::byte_slice(
                source,
                node.span.start as int,
                node.span.end as int,
            )
            &&& row.token_count == bpe::tokens(row.content)
            &&& row.name == node.metadata.searchable() && row.parent_name == node.parent_name
            &&& row.name is None <==> row.name_lower is None
            &&& row.parent_name is None <==> row.parent_name_lower is None
            &&& row.name matches Some(name) ==> row.name_lower == Some(strings::lowercase(name))
            &&& row.parent_name matches Some(name) ==> row.parent_name_lower == Some(
                strings::lowercase(name),
            )
        }),
{
}

/// A node that belongs to another of its file names it by the handle of that other.
pub proof fn law_child_names_parent(
    path: Seq<char>,
    source: Seq<char>,
    child: DocumentNodeView,
    parent: DocumentNodeView,
    preview_bytes: usize,
)
    ensures
        ({
            let row = pipeline::node_row(path, source, child, preview_bytes);
            let other = pipeline::node_row(path, source, parent, preview_bytes);
            &&& child.parent_node_type == Some(parent.node_type) && child.parent_span == Some(
                parent.span,
            ) ==> row.parent_handle_id == Some(other.handle_id)
            &&& child.parent_span is None || child.parent_node_type is None
                ==> row.parent_handle_id is None
        }),
{
}

/// A symbol that is kept in memory under a name gives the handle of its node: that
/// of its file, its type and its span, found under its name in lower case.
pub proof fn law_symbol_gives_handle(
    path: Seq<char>,
    source: Seq<char>,
    node: DocumentNodeView,
    preview_bytes: usize,
    entry: (String, SymbolCacheEntry),
)
    requires
        pipeline::is_symbol_of(
            entry,
            path,
            pipeline::node_row(path, source, node, preview_bytes),
        ),
    ensures
        ({
            let h = search::entry_handle(entry.1);
            &&& node.metadata.searchable() matches Some(name) && entry.0@ == strings::lowercase(name)
            &&& h.id == handle::raw_id(path, node.node_type, node.span)
            &&& h.file_path == path && h.node_type == node.node_type && h.span == node.span
            &&& h.line_range == node.line_range
            &&& h.token_count == bpe::tokens(
                text::byte_slice(source, node.span.start as int, node.span.end as int),
            )
            &&& h.preview == handle::preview_spec(source, node.span, preview_bytes as int)
            &&& h.content is None && h.source == HandleSource::Local
        }),
{
    lemma_code_reads_back(node.node_type, entry.1.node_type as int);
}

proof fn lemma_code_reads_back(t: NodeType, code: int)
    requires
        code == t.code(),
    ensures
        search::type_or(code as i32, NodeType::Function) == t,
        search::type_or(code as i32, NodeType::Chunk) == t,
{
    let byte = (code as i32) as u8;
    assert(byte == code);
}

/// Whether a row of the database holds the row of a node of a file.
pub open spec fn is_stored(row: HandleRow, path: Seq<char>, node: NodeRowView) -> bool {
    &&& row.handle_id@ == node.handle_id && row.path@ == path
    &&& row.node_type == node.node_type.code()
    &&& row.start_byte == node.span.start && row.end_byte == node.span.end
    &&& row.line_start == node.line_range.0 && row.line_end == node.line_range.1
    &&& row.token_count == node.token_count
    &&& row.preview matches Some(preview) && preview@ == node.preview
}

/// A row of the database gives the handle of the node that it holds.
pub proof fn law_stored_gives_handle(row: HandleRow, path: Seq<char>, node: NodeRowView)
    requires
        is_stored(row, path, node),
        node.token_count <= usize::MAX,
    ensures
        ({
            let h = search::row_handle(row);
            &&& h.id == node.handle_id && h.file_path == path && h.node_type == node.node_type
            &&& h.span == node.span && h.line_range == node.line_range
            &&& h.token_count == node.token_count && h.preview == node.preview
            &&& h.content is None && h.source == HandleSource::Local
        }),
{
    lemma_code_reads_back(node.node_type, row.node_type as int);
}

/// The symbols of a file are its named functions, classes, structs and methods, in
/// their order.
pub proof fn law_symbols_selected(rows: Seq<NodeRowView>)
    ensures
        pipeline::symbol_rows(rows) == rows.filter(
            |row: NodeRowView|
                row.name is Some && row.name_lower is Some && (row.node_type == NodeType::Function
                    || row.node_type == NodeType::Class || row.node_type == NodeType::Struct
                    || row.node_type == NodeType::Method),
        ),
    decreases rows.len(),
{
    reveal(Seq::filter);
    if rows.len() > 0 {
        law_symbols_selected(rows.drop_last());
    }
}

// ---------------------------------------------------------------------------
// Files
// ---------------------------------------------------------------------------

/// Whether a file is left unread: it was indexed not long ago and has not changed.
pub open spec fn is_left(c: Candidate, now: i64, ttl: i64) -> bool {
    match c.meta {
        Some(meta) => meta.mtime == c.mtime && now < meta.indexed_at + ttl,
        None => false,
    }
}

/// The files to read are those that are not left unread, each once and in their
/// order, and the others are counted.
pub proof fn law_files_read(cs: Seq<Candidate>, now: i64, ttl: i64)
    requires
        cs.len() <= usize::MAX,
    ensures
        ({
            let places = pipeline::places_to_read(cs, now, ttl);
            &&& forall|k: int|
                0 <= k < places.len() ==> (#[trigger] places[k]) < cs.len() && !is_left(
                    cs[places[k] as int],
                    now,
                    ttl,
                )
            &&& forall|k: int, l: int|
                0 <= k < l < places.len() ==> #[trigger] places[k] < #[trigger] places[l]
            &&& forall|i: usize|
                i < cs.len() && !is_left(#[trigger] cs[i as int], now, ttl) ==> places.contains(i)
            &&& places.len() + cs.filter(|c: Candidate| is_left(c, now, ttl)).len() == cs.len()
        }),
    decreases cs.len(),
{
    reveal(Seq::filter);
    if cs.len() > 0 {
        let rest = cs.drop_last();
        law_files_read(rest, now, ttl);
        let before = pipeline::places_to_read(rest, now, ttl);
        let places = pipeline::places_to_read(cs, now, ttl);
        let test = |c: Candidate| is_left(c, now, ttl);
        assert(cs.filter(test) == if test(cs.last()) {
            rest.filter(test).push(cs.last())
        } else {
            rest.filter(test)
        });
        assert forall|i: usize| i < cs.len() && !is_left(#[trigger] cs[i as int], now, ttl) implies
            places.contains(i) by {
            if i < rest.len() {
                assert(rest[i as int] == cs[i as int]);
                let k = before.index_of(i);
                assert(places[k] == i);
            } else {
                assert(places[before.len() as int] == i);
            }
        }
    }
}

/// The tokens that are counted of files left unread grow with each such file by what
/// the index knows of it, and with no other.
pub proof fn law_skipped_tokens_counted(cs: Seq<Candidate>, c: Candidate, now: i64, ttl: i64)
    ensures
        pipeline::skipped_tokens(Seq::empty(), now, ttl) == 0,
        pipeline::skipped_tokens(cs.push(c), now, ttl) == pipeline::skipped_tokens(cs, now, ttl)
            + if is_left(c, now, ttl) {
            c.meta->0.tokens as int
        } else {
            0
        },
{
    assert(cs.push(c).drop_last() =~= cs);
}

/// The files of an index that are made invalid are those whose path matches the glob.
pub proof fn law_invalidated_match(files: Seq<IndexedFile>, glob: Seq<char>)
    ensures
        expand::invalidated(files, glob) == files.filter(
            |f: IndexedFile| globs::glob_matches(glob, f.1),
        ),
    decreases files.len(),
{
    reveal(Seq::filter);
    if files.len() > 0 {
        law_invalidated_match(files.drop_last(), glob);
    }
}

/// The age of something is told in the largest unit of which a whole one has passed,
/// in whole numbers of it.
pub proof fn law_age_told(seconds: i64)
    requires
        seconds >= 0,
    ensures
        ({
            let told = expand::age_spec(seconds);
            let s = seconds as int;
            &&& exists|n: int, size: int|
                {
                    &&& #[trigger] is_age(told, n, size)
                    &&& n * size <= s < (n + 1) * size
                    &&& size == 1 <==> s < 60
                    &&& size == 60 <==> 60 <= s < 60 * 60
                    &&& size == 3600 <==> 60 * 60 <= s < 24 * 60 * 60
                }
        }),
{
    let s = seconds as int;
    let told = expand::age_spec(seconds);
    if s < 60 {
        assert(is_age(told, s, 1));
    } else if s < 3600 {
        assert(is_age(told, s / 60, 60));
    } else if s < 86400 {
        assert(is_age(told, s / 3600, 3600));
    } else {
        assert(is_age(told, s / 86400, 86400));
    }
}

/// Whether a text tells an age as a number of units of so many seconds.
pub open spec fn is_age(told: Seq<char>, n: int, size: int) -> bool {
    ||| size == 1 && told == strings::signed_decimal(n) + " seconds ago"@
    ||| size == 60 && told == strings::signed_decimal(n) + " minutes ago"@
    ||| size == 60 * 60 && told == strings::signed_decimal(n) + " hours ago"@
    ||| size == 24 * 60 * 60 && told == strings::signed_decimal(n) + " days ago"@
}

// ---------------------------------------------------------------------------
// Symbols in memory
// ---------------------------------------------------------------------------

/// What stays of the symbols of a name when a file is removed is those of the other
/// files, in their order.
pub proof fn law_others_stay(entries: Seq<SymbolCacheEntry>, path: Seq<char>)
    ensures
        symbol_cache::without_file(entries, path) == entries.filter(
            |e: SymbolCacheEntry| e.file_path@ != path,
        ),
    decreases entries.len(),
{
    reveal(Seq::filter);
    if entries.len() > 0 {
        law_others_stay(entries.drop_last(), path);
    }
}

/// The symbols that are added under a name follow those that it had, in their order.
pub proof fn law_added_in_order(
    s: CacheState,
    entries: Seq<(String, SymbolCacheEntry)>,
    name: Seq<char>,
)
    ensures
        s.add_all(entries).symbols(name) == s.symbols(name) + entries.filter(
            |e: (String, SymbolCacheEntry)| e.0@ == name,
        ).map_values(|e: (String, SymbolCacheEntry)| e.1),
    decreases entries.len(),
{
    reveal(Seq::filter);
    let test = |e: (String, SymbolCacheEntry)| e.0@ == name;
    let pick = |e: (String, SymbolCacheEntry)| e.1;
    if entries.len() > 0 {
        let rest = entries.drop_last();
        let last = entries.last();
        law_added_in_order(s, rest, name);
        symbol_cache::law_added_is_found(s.add_all(rest), last.0@, last.1);
        if test(last) {
            assert(entries.filter(test) == rest.filter(test).push(last));
            assert(s.symbols(name) + rest.filter(test).push(last).map_values(pick) =~= (s.symbols(
                name,
            ) + rest.filter(test).map_values(pick)).push(last.1));
        } else {
            assert(entries.filter(test) == rest.filter(test));
            assert(s.add_all(entries).symbols(name) == s.add_all(rest).symbols(name));
        }
    } else {
        assert(entries.filter(test) =~= Seq::empty());
        assert(s.symbols(name) + Seq::<(String, SymbolCacheEntry)>::empty().map_values(pick)
            =~= s.symbols(name));
    }
}

// ---------------------------------------------------------------------------
// Looking for files
// ---------------------------------------------------------------------------

/// Whether the arguments from `2 * k` on tell `fd` to leave out a pattern.
pub open spec fn leaves_out(args: Seq<Seq<char>>, k: int, pattern: Seq<char>) -> bool {
    args[2 * k] == "--exclude"@ && args[2 * k + 1] == pattern
}

/// Whether the arguments from `4 * k` on tell `rg` to leave out what a pattern matches
/// and what lies below it.
pub open spec fn leaves_out_tree(args: Seq<Seq<char>>, k: int, pattern: Seq<char>) -> bool {
    &&& args[4 * k] == "--glob"@ && args[4 * k + 1] == seq!['!'] + pattern
    &&& args[4 * k + 2] == "--glob"@ && args[4 * k + 3] == seq!['!'] + pattern + seq!['/', '*', '*']
}

/// `fd` is told of each pattern once that it is excluded, in their order.
pub proof fn law_fd_excludes(patterns: Seq<Seq<char>>)
    ensures
        ({
            let args = file_discovery::fd_exclusions(patterns);
            &&& args.len() == 2 * patterns.len()
            &&& forall|k: int|
                0 <= k < patterns.len() ==> leaves_out(args, k, #[trigger] patterns[k])
        }),
    decreases patterns.len(),
{
    if patterns.len() > 0 {
        let rest = patterns.drop_last();
        law_fd_excludes(rest);
        let args = file_discovery::fd_exclusions(patterns);
        assert(args.len() == 2 * patterns.len());
        assert forall|k: int|
            0 <= k < patterns.len() implies leaves_out(args, k, #[trigger] patterns[k]) by {
            if k < rest.len() {
                assert(rest[k] == patterns[k]);
                assert(leaves_out(file_discovery::fd_exclusions(rest), k, rest[k]));
            }
        }
    }
}

/// `rg` is told of each pattern that neither what it matches nor what lies below is
/// wanted, in their order.
pub proof fn law_rg_excludes(patterns: Seq<Seq<char>>)
    ensures
        ({
            let args = file_discovery::rg_exclusions(patterns);
            &&& args.len() == 4 * patterns.len()
            &&& forall|k: int|
                0 <= k < patterns.len() ==> leaves_out_tree(args, k, #[trigger] patterns[k])
        }),
    decreases patterns.len(),
{
    if patterns.len() > 0 {
        reveal_strlit("!");
        reveal_strlit("/**");
        assert("!"@ =~= seq!['!']);
        assert("/**"@ =~= seq!['/', '*', '*']);
        let rest = patterns.drop_last();
        law_rg_excludes(rest);
        let args = file_discovery::rg_exclusions(patterns);
        assert(args.len() == 4 * patterns.len());
        assert forall|k: int|
            0 <= k < patterns.len() implies leaves_out_tree(args, k, #[trigger] patterns[k]) by {
            if k < rest.len() {
                assert(rest[k] == patterns[k]);
                assert(leaves_out_tree(file_discovery::rg_exclusions(rest), k, rest[k]));
            }
        }
    }
}

/// What a tool lists is its lines that are not empty, in their order.
pub proof fn law_lines_filled(all: Seq<Seq<char>>)
    ensures
        file_discovery::filled_lines(all) == all.filter(|line: Seq<char>| line.len() > 0),
    decreases all.len(),
{
    reveal(Seq::filter);
    if all.len() > 0 {
        law_lines_filled(all.drop_last());
    }
}

/// A pattern that is ignored stands for two globs, wherever it occurs: what it names,
/// and all that lies below that. A pattern with wildcards is itself the first.
pub proof fn law_ignored_anywhere(patterns: Seq<Seq<char>>)
    ensures
        ({
            let ignored = file_discovery::all_ignore_globs(patterns);
            &&& ignored.len() == 2 * patterns.len()
            &&& forall|k: int|
                #![trigger patterns[k]]
                0 <= k < patterns.len() ==> {
                    &&& ignored[2 * k + 1] == seq!['*', '*', '/'] + patterns[k] + seq![
                        '/',
                        '*',
                        '*',
                    ]
                    &&& ignored[2 * k] == if patterns[k].contains('*') || patterns[k].contains(
                        '?',
                    ) {
                        patterns[k]
                    } else {
                        seq!['*', '*', '/'] + patterns[k]
                    }
                }
        }),
    decreases patterns.len(),
{
    if patterns.len() > 0 {
        reveal_strlit("**/");
        reveal_strlit("/**");
        assert("**/"@ =~= seq!['*', '*', '/']);
        assert("/**"@ =~= seq!['/', '*', '*']);
        let rest = patterns.drop_last();
        law_ignored_anywhere(rest);
        let ignored = file_discovery::all_ignore_globs(patterns);
        let own = file_discovery::ignore_globs(patterns.last());
        assert forall|k: int|
            #![trigger patterns[k]]
            0 <= k < patterns.len() implies {
            &&& ignored[2 * k + 1] == seq!['*', '*', '/'] + patterns[k] + seq!['/', '*', '*']
            &&& ignored[2 * k] == if patterns[k].contains('*') || patterns[k].contains('?') {
                patterns[k]
            } else {
                seq!['*', '*', '/'] + patterns[k]
            }
        } by {
            if k < rest.len() {
                assert(rest[k] == patterns[k]);
            } else {
                assert(ignored[2 * k] == own[0] && ignored[2 * k + 1] == own[1]);
            }
        }
    }
}

// ---------------------------------------------------------------------------
// The lines around a span
// ---------------------------------------------------------------------------

/// What is shown of a span is the whole lines that it touches: from after the last
/// line break before it to the first line break after it.
#[verifier::spinoff_prover]
#[verifier::rlimit(60)]
pub proof fn law_whole_lines(
    before: Seq<char>,
    head: Seq<char>,
    inside: Seq<char>,
    tail: Seq<char>,
    after: Seq<char>,
    span: Span,
)
    requires
        text::byte_len(before + head + inside + tail + after) <= usize::MAX,
        span.start == text::byte_len(before + head),
        span.end == text::byte_len(before + head + inside),
        before.len() == 0 || before.last() == '\n',
        after.len() == 0 || after[0] == '\n',
        !head.contains('\n') && !tail.contains('\n'),
    ensures
        ({
            let source = before + head + inside + tail + after;
            let shown = index::line_span(source, span);
            &&& text::byte_slice(source, shown.start as int, shown.end as int) == head + inside
                + tail
            &&& shown.start == text::byte_len(before)
        }),
{
    let source = before + head + inside + tail + after;
    let a = before.len() as int;
    let b = a + head.len();
    let c = b + inside.len();
    let d = c + tail.len();
    let n = source.len() as int;
    let up_to = before + head;
    let rest = tail + after;
    assert(text::byte_slice(source, 0, span.start as int) == up_to && span.start
        <= text::byte_len(source)) by {
        assert(source.take(b) =~= up_to);
        assert(source.take(0) =~= Seq::<char>::empty());
        text::lemma_char_range(source, 0, b);
        assert(source.subrange(0, b) =~= up_to);
    }
    assert(text::byte_slice(source, span.end as int, text::byte_len(source) as int) == rest
        && span.end <= text::byte_len(source)) by {
        assert(source.take(c) =~= before + head + inside);
        assert(source.take(n) =~= source);
        text::lemma_char_range(source, c, n);
        assert(source.subrange(c, n) =~= rest);
    }
    assert(text::byte_len(before + head + inside + tail) == span.end + text::byte_len(tail)) by {
        text::lemma_encode_add(before + head + inside, tail);
    }
    assert(text::byte_slice(
        source,
        text::byte_len(before) as int,
        text::byte_len(before + head + inside + tail) as int,
    ) == head + inside + tail && text::byte_len(before) <= text::byte_len(source)
        && text::byte_len(before + head + inside + tail) <= text::byte_len(source)) by {
        assert(source.take(a) =~= before);
        assert(source.take(d) =~= before + head + inside + tail);
        text::lemma_char_range(source, a, d);
        assert(source.subrange(a, d) =~= head + inside + tail);
    }
    lemma_line_start(before, head);
    lemma_line_end(tail, after);
}

proof fn lemma_line_start(before: Seq<char>, head: Seq<char>)
    requires
        before.len() == 0 || before.last() == '\n',
        !head.contains('\n'),
    ensures
        ({
            let up_to = before + head;
            up_to.take(strings::after_last(up_to, '\n', up_to.len() as int)) == before
        }),
{
    let a = before.len() as int;
    let up_to = before + head;
    strings::lemma_after_last(up_to, '\n', up_to.len() as int);
    let start = strings::after_last(up_to, '\n', up_to.len() as int);
    if start > a {
        assert(up_to[start - 1] == head[start - 1 - a]);
        assert(head.contains('\n'));
    }
    if start < a {
        assert(up_to[a - 1] == before.last());
    }
    assert(up_to.take(a) =~= before);
}

proof fn lemma_line_end(tail: Seq<char>, after: Seq<char>)
    requires
        after.len() == 0 || after[0] == '\n',
        !tail.contains('\n'),
    ensures
        ({
            let rest = tail + after;
            rest.take(strings::find_from(rest, '\n', 0)) == tail
        }),
{
    let rest = tail + after;
    strings::lemma_find_from(rest, '\n', 0);
    let stop = strings::find_from(rest, '\n', 0);
    if stop < tail.len() {
        assert(rest[stop] == tail[stop]);
        assert(tail.contains('\n'));
    }
    if stop > tail.len() {
        assert(rest[tail.len() as int] == after[0]);
    }
    assert(rest.take(tail.len() as int) =~= tail);
}

// ---------------------------------------------------------------------------
// References
// ---------------------------------------------------------------------------

/// Whether a row of the database holds the row of a reference in a file.
pub open spec fn is_stored_ref(stored: RefRow, path: Seq<char>, row: RefIndexRow) -> bool {
    &&& stored.path@ == path
    &&& stored.span_start == row.span.start && stored.span_end == row.span.end
    &&& stored.line_start == row.line_range.0 && stored.line_end == row.line_range.1
    &&& stored.name@ == row.name@ && text::opt_view(stored.qualifier) == text::opt_view(
        row.qualifier,
    )
    &&& stored.ref_type@ == row.ref_type@
    &&& stored.preview matches Some(preview) && preview@ == row.preview@
}

/// A reference that is stored is read back as it is, and is found under its name in lower
/// case.
pub proof fn law_reference_reads_back(
    stored: RefRow,
    path: Seq<char>,
    row: RefIndexRow,
    source: Seq<char>,
    reference: ReferenceView,
    nodes: Seq<(Span, i64)>,
    preview_bytes: usize,
)
    requires
        pipeline::is_ref_row(row, source, reference, nodes, preview_bytes),
        is_stored_ref(stored, path, row),
    ensures
        ({
            let r = search::row_ref(stored);
            &&& r.file_path == path && r.span == reference.span && r.line_range
                == reference.line_range
            &&& r.name == reference.name && r.qualifier == reference.qualifier && r.ref_type
                == reference.ref_type
            &&& row.name_lower@ == strings::lowercase(reference.name)
            &&& r.preview == handle::preview_spec(
                source,
                index::line_span(source, reference.span),
                2 * preview_bytes,
            )
        }),
{
    document::law_ref_type_name(reference.ref_type);
}

/// The handle of a whole file is that of the node which such a file has where nothing is
/// found in it.
pub proof fn law_whole_file_handle(
    path: Seq<char>,
    token_count: usize,
    source: Seq<char>,
    preview_bytes: usize,
)
    requires
        source.len() > 0,
    ensures
        ({
            let h = search::whole_file(path, token_count, source, preview_bytes);
            let node = lines::single_node(source)[0];
            let row = pipeline::node_row(path, source, node, preview_bytes);
            &&& h.id == row.handle_id && h.file_path == path && h.node_type == row.node_type
            &&& h.span == row.span && h.line_range == row.line_range
            &&& h.preview == row.preview && h.token_count == token_count
        }),
{
}

/// A file is listed where it matches the glob and none of the globs that are ignored; one
/// that is no glob ignores nothing.
pub proof fn law_listed_unless_ignored(path: Seq<char>, glob: Seq<char>, ignored: Seq<Seq<char>>)
    ensures
        file_discovery::is_listed(path, glob, ignored) <==> globs::glob_matches(glob, path)
            && forall|i: int|
            0 <= i < ignored.len() && globs::glob_error(#[trigger] ignored[i]) is None
                ==> !globs::glob_matches(ignored[i], path),
{
}

/// The cache answers with the first symbols of the name in lower case, in their order, as
/// many as are wanted, where code or a definition is looked for; it has no other answers.
pub proof fn law_cache_answers(cache: CacheState, request: SearchRequestView, k: int)
    ensures
        ({
            let answer = search::cached_spec(cache, request);
            &&& request matches SearchRequestView::Code { symbol, limit } ==> is_start_of(
                answer,
                cache.symbols(strings::lowercase(symbol)),
                limit,
                k,
            )
            &&& request matches SearchRequestView::Definitions { symbol, limit } ==> is_start_of(
                answer,
                cache.symbols(strings::lowercase(symbol)),
                limit,
                k,
            )
            &&& !(request is Code || request is Definitions) ==> answer.len() == 0
        }),
{
}

/// Whether handles are those of the first symbols, as many as a limit allows: so at `k`.
pub open spec fn is_start_of(
    answer: Seq<HandleView>,
    entries: Seq<SymbolCacheEntry>,
    limit: usize,
    k: int,
) -> bool {
    &&& answer.len() == if entries.len() < limit {
        entries.len() as int
    } else {
        limit as int
    }
    &&& 0 <= k < answer.len() ==> answer[k].id == entries[k].handle_id@ && answer[k].file_path
        == entries[k].file_path@ && answer[k].span.start == entries[k].start_byte
        && answer[k].span.end == entries[k].end_byte
}

} // verus!
