//! File parsing for Markdown and code files.

use vstd::prelude::*;
use crate::config::{Config, IndexingConfig};
use crate::document::{DocumentNode, DocumentNodeView, NodeType, ParsedFile, Reference, ReferenceView};
use crate::hashing;
use crate::hashing::sha256;
use crate::parse::bpe::estimate_tokens;
use crate::parse::lines::{parse_as_chunks, parse_as_single_node};
use crate::parse::markdown::{check_events, parse_markdown, read_events};
use crate::parse::syntax::{check_rows, parse_rows, Grammar, SyntaxRow, SyntaxRowView};
use crate::parse::tree_sitter_parse::extract_tree_sitter_nodes;
use crate::paths;
use crate::paths::extension;
use crate::text;
use crate::text::{len_bytes, str_eq};

pub mod blocks;
pub mod bpe;
pub mod lines;
pub mod markdown;
pub mod placement;
pub mod references;
pub mod symbols;
pub mod syntax;
pub mod tree;
pub mod tree_sitter_parse;
pub mod uses;

verus! {

/// File type, by extension.
#[derive(Debug, Clone, Copy, PartialEq, Eq, Structural)]
pub enum FileType {
    Markdown,
    Rust,
    Python,
    JavaScript,
    TypeScript,
    Go,
    Other,
}

/// The file type of an extension.
pub open spec fn type_of_extension(ext: Seq<char>) -> FileType {
    if ext == "md"@ || ext == "markdown"@ {
        FileType::Markdown
    } else if ext == "rs"@ {
        FileType::Rust
    } else if ext == "py"@ {
        FileType::Python
    } else if ext == "js"@ || ext == "jsx"@ || ext == "mjs"@ || ext == "cjs"@ {
        FileType::JavaScript
    } else if ext == "ts"@ || ext == "tsx"@ || ext == "mts"@ || ext == "cts"@ {
        FileType::TypeScript
    } else if ext == "go"@ {
        FileType::Go
    } else {
        FileType::Other
    }
}

impl FileType {
    /// The file type of a path.
    pub open spec fn of_path(path: Seq<char>) -> FileType {
        match paths::extension_spec(path) {
            Some(ext) => type_of_extension(ext),
            None => FileType::Other,
        }
    }

    pub fn from_path(path: &str) -> (r: FileType)
        ensures
            r == FileType::of_path(path@),
    {
        let ext: String = match extension(path) {
            Some(ext) => ext,
            None => {
                return FileType::Other;
            },
        };
        let e: &str = ext.as_str();
        if str_eq(e, "md") || str_eq(e, "markdown") {
            FileType::Markdown
        } else if str_eq(e, "rs") {
            FileType::Rust
        } else if str_eq(e, "py") {
            FileType::Python
        } else if str_eq(e, "js") || str_eq(e, "jsx") || str_eq(e, "mjs") || str_eq(e, "cjs") {
            FileType::JavaScript
        } else if str_eq(e, "ts") || str_eq(e, "tsx") || str_eq(e, "mts") || str_eq(e, "cts") {
            FileType::TypeScript
        } else if str_eq(e, "go") {
            FileType::Go
        } else {
            FileType::Other
        }
    }

    pub fn is_markdown(self) -> (r: bool)
        ensures
            r == (self == FileType::Markdown),
    {
        matches!(self, FileType::Markdown)
    }

    pub fn has_tree_sitter_grammar(self) -> (r: bool)
        ensures
            r == (self != FileType::Markdown && self != FileType::Other),
    {
        matches!(
            self,
            FileType::Rust | FileType::Python | FileType::JavaScript | FileType::TypeScript
                | FileType::Go
        )
    }
}

// ---------------------------------------------------------------------------
// Code files
// ---------------------------------------------------------------------------

/// The grammar for the files of a type; those with the extension `tsx` have
/// one of their own.
pub open spec fn grammar_for(path: Seq<char>, file_type: FileType) -> Option<Grammar> {
    match file_type {
        FileType::Rust => Some(Grammar::Rust),
        FileType::Python => Some(Grammar::Python),
        FileType::JavaScript => Some(Grammar::JavaScript),
        FileType::TypeScript => if paths::extension_spec(path) == Some("tsx"@) {
            Some(Grammar::Tsx)
        } else {
            Some(Grammar::TypeScript)
        },
        FileType::Go => Some(Grammar::Go),
        FileType::Markdown | FileType::Other => None,
    }
}

/// The grammar for the files of a type.
pub fn select_grammar(path: &str, file_type: FileType) -> (r: Option<Grammar>)
    ensures
        r == grammar_for(path@, file_type),
{
    match file_type {
        FileType::Rust => Some(Grammar::Rust),
        FileType::Python => Some(Grammar::Python),
        FileType::JavaScript => Some(Grammar::JavaScript),
        FileType::TypeScript => match extension(path) {
            Some(ext) => if str_eq(ext.as_str(), "tsx") {
                Some(Grammar::Tsx)
            } else {
                Some(Grammar::TypeScript)
            },
            None => Some(Grammar::TypeScript),
        },
        FileType::Go => Some(Grammar::Go),
        FileType::Markdown | FileType::Other => None,
    }
}

/// The nodes and references of a code file, given its syntax tree. A file that
/// has no tree, or a tree without a node to index, is a single node.
pub open spec fn code_parts(
    rows: Option<Seq<SyntaxRowView>>,
    source: Seq<char>,
    file_type: FileType,
) -> (Seq<DocumentNodeView>, Seq<ReferenceView>) {
    match rows {
        Some(rows) => {
            let nodes = tree_sitter_parse::document_nodes(rows, rows.len(), source, file_type);
            let refs = tree_sitter_parse::all_references(rows, rows.len(), source, file_type);
            if nodes.len() == 0 {
                (lines::single_node(source), refs)
            } else {
                (nodes, refs)
            }
        },
        None => (lines::single_node(source), Seq::empty()),
    }
}

/// The syntax tree of a code file.
pub open spec fn code_rows(path: Seq<char>, source: Seq<char>, file_type: FileType) -> Option<
    Seq<SyntaxRowView>,
> {
    match grammar_for(path, file_type) {
        Some(grammar) => syntax::parsed_rows(grammar.code(), source),
        None => None,
    }
}

/// Whether the positions in a syntax tree are positions in the source.
pub open spec fn opt_rows_fit(rows: Option<Seq<SyntaxRowView>>, source: Seq<char>) -> bool {
    match rows {
        Some(rows) => syntax::rows_fit(rows, source),
        None => true,
    }
}

/// The view of an optional table of rows.
pub open spec fn opt_rows(rows: Option<Vec<SyntaxRow>>) -> Option<Seq<SyntaxRowView>> {
    match rows {
        Some(rows) => Some(text::views(rows@)),
        None => None,
    }
}

/// The nodes and references of a code file, given its syntax tree.
pub fn parse_code_rows(rows: Option<Vec<SyntaxRow>>, source: &str, file_type: FileType) -> (r: (
    Vec<DocumentNode>,
    Vec<Reference>,
))
    requires
        opt_rows_fit(opt_rows(rows), source@),
    ensures
        (text::views(r.0@), text::views(r.1@)) == code_parts(opt_rows(rows), source@, file_type),
{
    match rows {
        Some(rows) => {
            let (nodes, refs): (Vec<DocumentNode>, Vec<Reference>) = extract_tree_sitter_nodes(
                &rows,
                source,
                file_type,
            );
            assert(text::views(nodes@).len() == nodes@.len());
            if nodes.len() == 0 {
                (parse_as_single_node(source), refs)
            } else {
                (nodes, refs)
            }
        },
        None => {
            let refs: Vec<Reference> = Vec::new();
            assert(text::views(refs@) =~= Seq::<ReferenceView>::empty());
            (parse_as_single_node(source), refs)
        },
    }
}

fn read_rows(path: &str, source: &str, file_type: FileType) -> (r: Option<Vec<SyntaxRow>>)
    ensures
        opt_rows(r) == code_rows(path@, source@, file_type),
{
    match select_grammar(path, file_type) {
        Some(grammar) => parse_rows(grammar, source),
        None => None,
    }
}

/// The nodes and references of a code file.
pub fn parse_code_with_tree_sitter(path: &str, source: &str, file_type: FileType) -> (r: (
    Vec<DocumentNode>,
    Vec<Reference>,
))
    requires
        opt_rows_fit(code_rows(path@, source@, file_type), source@),
    ensures
        (text::views(r.0@), text::views(r.1@)) == code_parts(
            code_rows(path@, source@, file_type),
            source@,
            file_type,
        ),
{
    let rows: Option<Vec<SyntaxRow>> = read_rows(path, source, file_type);
    parse_code_rows(rows, source, file_type)
}

// ---------------------------------------------------------------------------
// Files
// ---------------------------------------------------------------------------

/// Whether a file's lines can be numbered and the positions that the parser for
/// its type reports are positions in its source.
pub open spec fn file_fits(path: Seq<char>, source: Seq<char>) -> bool {
    let file_type = FileType::of_path(path);
    &&& lines::countable(source)
    &&& file_type == FileType::Markdown ==> markdown::events_fit(
        markdown::markdown_events(source),
        source,
    )
    &&& opt_rows_fit(code_rows(path, source, file_type), source)
}

/// Whether these are the nodes and references of a file: by its type those of
/// the Markdown or of the code; of another file, chunks where it is larger than
/// the threshold, else a single node.
pub open spec fn are_file_parts(
    nodes: Seq<DocumentNodeView>,
    refs: Seq<ReferenceView>,
    path: Seq<char>,
    source: Seq<char>,
    config: IndexingConfig,
) -> bool {
    let file_type = FileType::of_path(path);
    if file_type == FileType::Markdown {
        nodes == markdown::markdown_nodes(markdown::markdown_events(source), source)
            && refs.len() == 0
    } else if file_type != FileType::Other {
        (nodes, refs) == code_parts(code_rows(path, source, file_type), source, file_type)
    } else if text::byte_len(source) > config.chunk_threshold {
        let lines = config.chunk_lines as nat;
        let overlap = config.chunk_overlap as nat;
        lines::is_chunk_count(source, nodes.len(), lines, overlap) && nodes == lines::chunk_nodes(
            source,
            nodes.len(),
            lines,
            overlap,
        ) && refs.len() == 0
    } else {
        nodes == lines::single_node(source) && refs.len() == 0
    }
}

/// Whether a parsed file is that of the given path and source.
pub open spec fn is_parse_of(
    parsed: ParsedFile,
    path: Seq<char>,
    source: Seq<char>,
    config: IndexingConfig,
) -> bool {
    &&& parsed.path@ == path
    &&& parsed.source@ == source
    &&& parsed.total_tokens == bpe::tokens(source)
    &&& are_file_parts(
        text::views(parsed.nodes@),
        text::views(parsed.refs@),
        path,
        source,
        config,
    )
}

/// Parses a file whose digest is known.
pub fn parse_file_with_hash(
    path: &str,
    source: &str,
    config: &Config,
    content_hash: [u8; 32],
    mtime: i64,
) -> (r: ParsedFile)
    requires
        file_fits(path@, source@),
    ensures
        is_parse_of(r, path@, source@, config.indexing),
        r.content_hash == content_hash,
        r.mtime == mtime,
{
    let file_type: FileType = FileType::from_path(path);
    let no_refs: Vec<Reference> = Vec::new();
    let (nodes, refs): (Vec<DocumentNode>, Vec<Reference>) = if file_type.is_markdown() {
        (parse_markdown(source), no_refs)
    } else if file_type.has_tree_sitter_grammar() {
        parse_code_with_tree_sitter(path, source, file_type)
    } else if len_bytes(source) > config.indexing.chunk_threshold {
        (
            parse_as_chunks(source, config.indexing.chunk_lines, config.indexing.chunk_overlap),
            no_refs,
        )
    } else {
        (parse_as_single_node(source), no_refs)
    };
    assert(text::views(nodes@).len() == nodes@.len());
    ParsedFile {
        path: path.to_owned(),
        source: source.to_owned(),
        content_hash,
        nodes,
        refs,
        total_tokens: estimate_tokens(source),
        mtime,
    }
}

/// Parses a file; its digest is the SHA-256 digest of its source.
pub fn parse_file(path: &str, source: &str, config: &Config, mtime: i64) -> (r: ParsedFile)
    requires
        file_fits(path@, source@),
    ensures
        is_parse_of(r, path@, source@, config.indexing),
        r.content_hash@ == hashing::sha256_digest(vstd::utf8::encode_utf8(source@)),
        r.mtime == mtime,
{
    let content_hash: [u8; 32] = sha256(source.as_bytes());
    parse_file_with_hash(path, source, config, content_hash, mtime)
}

/// Whether a file's lines can be numbered and the positions that the parser for
/// its type reports are positions in its source.
pub fn check_file(path: &str, source: &str) -> (r: bool)
    ensures
        r == file_fits(path@, source@),
{
    let file_type: FileType = FileType::from_path(path);
    if len_bytes(source) == usize::MAX {
        return false;
    }
    if file_type.is_markdown() {
        let events: Vec<markdown::MarkdownEvent> = read_events(source);
        return check_events(&events, source);
    }
    match read_rows(path, source, file_type) {
        Some(rows) => check_rows(&rows, source),
        None => true,
    }
}

/// Parses a file whose digest is known; `None` where a position that the parser
/// for its type reports is none in its source.
pub fn try_parse_file_with_hash(
    path: &str,
    source: &str,
    config: &Config,
    content_hash: [u8; 32],
    mtime: i64,
) -> (r: Option<ParsedFile>)
    ensures
        r is Some <==> file_fits(path@, source@),
        r matches Some(parsed) ==> is_parse_of(parsed, path@, source@, config.indexing)
            && parsed.content_hash == content_hash && parsed.mtime == mtime,
{
    if check_file(path, source) {
        Some(parse_file_with_hash(path, source, config, content_hash, mtime))
    } else {
        None
    }
}

/// Parses a file; `None` where a position that the parser for its type reports
/// is none in its source.
pub fn try_parse_file(path: &str, source: &str, config: &Config, mtime: i64) -> (r: Option<
    ParsedFile,
>)
    ensures
        r is Some <==> file_fits(path@, source@),
        r matches Some(parsed) ==> is_parse_of(parsed, path@, source@, config.indexing)
            && parsed.content_hash@ == hashing::sha256_digest(vstd::utf8::encode_utf8(source@))
            && parsed.mtime == mtime,
{
    if check_file(path, source) {
        Some(parse_file(path, source, config, mtime))
    } else {
        None
    }
}

/// Whether an extension is that of a script of a family: with its letter before an `s`,
/// after an `m` or a `c` that says how it is loaded, or before an `x`.
pub open spec fn is_script_extension(ext: Seq<char>, letter: char) -> bool {
    ||| ext == seq![letter, 's']
    ||| ext == seq!['m', letter, 's']
    ||| ext == seq!['c', letter, 's']
    ||| ext == seq![letter, 's', 'x']
}

/// What the extension of a path says of the type of its file, and what a file of the
/// type is parsed by. Only `tsx` files have a grammar of their own within a type.
pub proof fn law_types_of_files(path: Seq<char>, ext: Seq<char>)
    requires
        paths::extension_spec(path) == Some(ext),
    ensures
        ({
            let file_type = FileType::of_path(path);
            &&& file_type == FileType::JavaScript <==> is_script_extension(ext, 'j')
            &&& file_type == FileType::TypeScript <==> is_script_extension(ext, 't')
            &&& file_type == FileType::Rust <==> ext == seq!['r', 's']
            &&& file_type == FileType::Python <==> ext == seq!['p', 'y']
            &&& file_type == FileType::Go <==> ext == seq!['g', 'o']
            &&& file_type == FileType::Markdown <==> ext == seq!['m', 'd'] || ext == seq![
                'm',
                'a',
                'r',
                'k',
                'd',
                'o',
                'w',
                'n',
            ]
            &&& match grammar_for(path, file_type) {
                Some(Grammar::Rust) => file_type == FileType::Rust,
                Some(Grammar::Python) => file_type == FileType::Python,
                Some(Grammar::JavaScript) => file_type == FileType::JavaScript,
                Some(Grammar::TypeScript) => file_type == FileType::TypeScript && ext != seq![
                    't',
                    's',
                    'x',
                ],
                Some(Grammar::Tsx) => ext == seq!['t', 's', 'x'],
                Some(Grammar::Go) => file_type == FileType::Go,
                None => file_type == FileType::Markdown || file_type == FileType::Other,
            }
        }),
{
    reveal_strlit("md");
    reveal_strlit("markdown");
    reveal_strlit("rs");
    reveal_strlit("py");
    reveal_strlit("js");
    reveal_strlit("jsx");
    reveal_strlit("mjs");
    reveal_strlit("cjs");
    reveal_strlit("ts");
    reveal_strlit("tsx");
    reveal_strlit("mts");
    reveal_strlit("cts");
    reveal_strlit("go");
    assert("md"@ =~= seq!['m', 'd']);
    assert("markdown"@ =~= seq!['m', 'a', 'r', 'k', 'd', 'o', 'w', 'n']);
    assert("rs"@ =~= seq!['r', 's']);
    assert("py"@ =~= seq!['p', 'y']);
    assert("js"@ =~= seq!['j', 's']);
    assert("jsx"@ =~= seq!['j', 's', 'x']);
    assert("mjs"@ =~= seq!['m', 'j', 's']);
    assert("cjs"@ =~= seq!['c', 'j', 's']);
    assert("ts"@ =~= seq!['t', 's']);
    assert("tsx"@ =~= seq!['t', 's', 'x']);
    assert("mts"@ =~= seq!['m', 't', 's']);
    assert("cts"@ =~= seq!['c', 't', 's']);
    assert("go"@ =~= seq!['g', 'o']);
    assert(ext.len() == 2 ==> ext =~= seq![ext[0], ext[1]]);
    assert(ext.len() == 3 ==> ext =~= seq![ext[0], ext[1], ext[2]]);
}

/// A code file that is not empty always has a node: those of its definitions, or else
/// one for the whole of it. It has its references either way.
pub proof fn law_code_file_has_nodes(
    rows: Option<Seq<SyntaxRowView>>,
    source: Seq<char>,
    file_type: FileType,
)
    requires
        source.len() > 0,
    ensures
        ({
            let nodes = code_parts(rows, source, file_type).0;
            let refs = code_parts(rows, source, file_type).1;
            let found = match rows {
                Some(rows) => tree_sitter_parse::document_nodes(
                    rows,
                    rows.len(),
                    source,
                    file_type,
                ),
                None => Seq::empty(),
            };
            &&& if found.len() > 0 {
                nodes == found
            } else {
                nodes.len() == 1 && is_whole(nodes[0], source)
            }
            &&& match rows {
                Some(rows) => refs == tree_sitter_parse::all_references(
                    rows,
                    rows.len(),
                    source,
                    file_type,
                ),
                None => refs.len() == 0,
            }
        }),
{
}

/// Whether a node is a chunk that is the whole of a text.
pub open spec fn is_whole(node: DocumentNodeView, source: Seq<char>) -> bool {
    &&& node.span.start == 0 && node.span.end == text::byte_len(source) as usize
    &&& node.line_range.0 == 1
    &&& node.node_type == NodeType::Chunk && node.metadata is Chunk
    &&& node.parent_name is None
}

/// A file of no known type that is not empty is one chunk where it is no longer than
/// the threshold; no such file has references, nor has a Markdown file.
pub proof fn law_other_file_parts(
    nodes: Seq<DocumentNodeView>,
    refs: Seq<ReferenceView>,
    path: Seq<char>,
    source: Seq<char>,
    config: IndexingConfig,
)
    requires
        are_file_parts(nodes, refs, path, source, config),
    ensures
        ({
            let file_type = FileType::of_path(path);
            &&& file_type == FileType::Other || file_type == FileType::Markdown ==> refs.len() == 0
            &&& file_type == FileType::Other && text::byte_len(source) <= config.chunk_threshold
                && source.len() > 0 ==> nodes.len() == 1 && is_whole(nodes[0], source)
        }),
{
}

} // verus!
