//! Where nodes and references stand: between two characters of the source.

use vstd::prelude::*;
use crate::config::IndexingConfig;
use crate::document;
use crate::document::{DocumentNodeView, ReferenceView};
use crate::handle;
use crate::parse;
use crate::parse::lines;
use crate::parse::references;
use crate::parse::references::ImportStyle;
use crate::parse::syntax;
use crate::parse::syntax::SyntaxRowView;
use crate::parse::tree_sitter_parse;
use crate::parse::FileType;
use crate::text;

verus! {

broadcast use vstd::seq::group_seq_axioms;

/// Whether nodes stand between characters of the source.
pub open spec fn nodes_placed(nodes: Seq<DocumentNodeView>, source: Seq<char>) -> bool {
    forall|i: int|
        0 <= i < nodes.len() ==> document::span_fits(source, (#[trigger] nodes[i]).span)
}

/// Whether references stand between characters of the source.
pub open spec fn refs_placed(refs: Seq<ReferenceView>, source: Seq<char>) -> bool {
    forall|i: int|
        0 <= i < refs.len() ==> document::span_fits(source, (#[trigger] refs[i]).span)
}

proof fn lemma_refs_add(a: Seq<ReferenceView>, b: Seq<ReferenceView>, source: Seq<char>)
    requires
        refs_placed(a, source),
        refs_placed(b, source),
    ensures
        refs_placed(a + b, source),
{
    assert forall|i: int| 0 <= i < (a + b).len() implies document::span_fits(
        source,
        (#[trigger] (a + b)[i]).span,
    ) by {
        if i < a.len() {
            assert((a + b)[i] == a[i]);
        } else {
            assert((a + b)[i] == b[i - a.len()]);
        }
    }
}

/// A row's references stand where the row does.
proof fn lemma_row(rows: Seq<SyntaxRowView>, i: int, source: Seq<char>)
    requires
        0 <= i < rows.len(),
        syntax::rows_fit(rows, source),
    ensures
        document::span_fits(source, rows[i].start_byte..rows[i].end_byte),
{
    assert(syntax::row_fits(rows[i], source));
}

proof fn lemma_import_names(
    rows: Seq<SyntaxRowView>,
    i: int,
    source: Seq<char>,
    style: ImportStyle,
)
    requires
        syntax::rows_fit(rows, source),
    ensures
        refs_placed(references::import_names(rows, i, source, style), source),
    decreases rows.len() - i, 0int,
{
    if 0 <= i < rows.len() {
        lemma_row(rows, i, source);
        if references::is_clause(style, rows[i].kind) {
            lemma_import_names_below(rows, i, i + 1, source, style);
        }
    }
}

proof fn lemma_import_names_below(
    rows: Seq<SyntaxRowView>,
    i: int,
    j: int,
    source: Seq<char>,
    style: ImportStyle,
)
    requires
        syntax::rows_fit(rows, source),
    ensures
        refs_placed(references::import_names_below(rows, i, j, source, style), source),
    decreases rows.len() - j, 1int,
{
    if j >= 0 && syntax::is_below(rows, i, j) {
        lemma_import_names_below(rows, i, j + 1, source, style);
        if syntax::is_child(rows, i, j) {
            lemma_import_names(rows, j, source, style);
            lemma_refs_add(
                references::import_names(rows, j, source, style),
                references::import_names_below(rows, i, j + 1, source, style),
                source,
            );
        }
    }
}

proof fn lemma_python_imports(rows: Seq<SyntaxRowView>, i: int, j: int, source: Seq<char>)
    requires
        syntax::rows_fit(rows, source),
    ensures
        refs_placed(references::python_imports_below(rows, i, j, source), source),
    decreases rows.len() - j,
{
    if j >= 0 && syntax::is_below(rows, i, j) {
        lemma_python_imports(rows, i, j + 1, source);
        lemma_row(rows, j, source);
        if syntax::is_child(rows, i, j) {
            lemma_refs_add(
                references::python_import(rows, j, source),
                references::python_imports_below(rows, i, j + 1, source),
                source,
            );
        }
    }
}

proof fn lemma_references_of(
    rows: Seq<SyntaxRowView>,
    i: int,
    source: Seq<char>,
    file_type: FileType,
)
    requires
        0 <= i < rows.len(),
        syntax::rows_fit(rows, source),
    ensures
        refs_placed(references::references_of(rows, i, source, file_type), source),
{
    lemma_row(rows, i, source);
    lemma_import_names_below(rows, i, i + 1, source, ImportStyle::Script);
    lemma_import_names_below(rows, i, i + 1, source, ImportStyle::Use);
    lemma_python_imports(rows, i, i + 1, source);
}

proof fn lemma_all_references(
    rows: Seq<SyntaxRowView>,
    n: nat,
    source: Seq<char>,
    file_type: FileType,
)
    requires
        n <= rows.len(),
        syntax::rows_fit(rows, source),
    ensures
        refs_placed(tree_sitter_parse::all_references(rows, n, source, file_type), source),
    decreases n,
{
    if n > 0 {
        lemma_all_references(rows, (n - 1) as nat, source, file_type);
        lemma_references_of(rows, n - 1, source, file_type);
        lemma_refs_add(
            tree_sitter_parse::all_references(rows, (n - 1) as nat, source, file_type),
            references::references_of(rows, n - 1, source, file_type),
            source,
        );
    }
}

proof fn lemma_document_nodes(
    rows: Seq<SyntaxRowView>,
    n: nat,
    source: Seq<char>,
    file_type: FileType,
)
    requires
        n <= rows.len(),
        syntax::rows_fit(rows, source),
    ensures
        nodes_placed(tree_sitter_parse::document_nodes(rows, n, source, file_type), source),
    decreases n,
{
    if n > 0 {
        lemma_document_nodes(rows, (n - 1) as nat, source, file_type);
        lemma_row(rows, n - 1, source);
        let before = tree_sitter_parse::document_nodes(rows, (n - 1) as nat, source, file_type);
        let all = tree_sitter_parse::document_nodes(rows, n, source, file_type);
        let own = tree_sitter_parse::document_node(rows, n - 1, source, file_type);
        assert forall|i: int| 0 <= i < all.len() implies document::span_fits(
            source,
            (#[trigger] all[i]).span,
        ) by {
            if i < before.len() {
                assert(all[i] == before[i]);
            } else {
                assert(all[i] == own[i - before.len()]);
            }
        }
    }
}

/// Every node and every reference of a code file stands between two characters
/// of its source, so that it can be cut out.
pub proof fn law_code_parts_placed(
    rows: Option<Seq<SyntaxRowView>>,
    source: Seq<char>,
    file_type: FileType,
)
    requires
        parse::opt_rows_fit(rows, source),
        lines::countable(source),
    ensures
        nodes_placed(parse::code_parts(rows, source, file_type).0, source),
        refs_placed(parse::code_parts(rows, source, file_type).1, source),
{
    handle::lemma_end_boundary(source);
    assert(nodes_placed(lines::single_node(source), source));
    match rows {
        Some(rows) => {
            lemma_document_nodes(rows, rows.len(), source, file_type);
            lemma_all_references(rows, rows.len(), source, file_type);
        },
        None => {},
    }
}

/// What a file other than a Markdown file is parsed into stands between
/// characters of its source.
pub proof fn law_file_parts_placed(
    nodes: Seq<DocumentNodeView>,
    refs: Seq<ReferenceView>,
    path: Seq<char>,
    source: Seq<char>,
    config: IndexingConfig,
)
    requires
        FileType::of_path(path) != FileType::Markdown,
        parse::file_fits(path, source),
        parse::are_file_parts(nodes, refs, path, source, config),
    ensures
        nodes_placed(nodes, source),
        refs_placed(refs, source),
{
    let file_type = FileType::of_path(path);
    handle::lemma_end_boundary(source);
    assert(nodes_placed(lines::single_node(source), source));
    if file_type != FileType::Other {
        law_code_parts_placed(parse::code_rows(path, source, file_type), source, file_type);
    } else if text::byte_len(source) > config.chunk_threshold {
        let size = config.chunk_lines as nat;
        let overlap = config.chunk_overlap as nat;
        assert forall|k: int| 0 <= k < nodes.len() implies document::span_fits(
            source,
            (#[trigger] nodes[k]).span,
        ) by {
            lines::law_chunk_text(source, nodes.len(), size, overlap, k);
        }
    }
}

} // verus!
