//! Syntax trees as tables: one row for each node, in the order of a depth-first
//! walk that visits a node before its children.

use vstd::prelude::*;
use crate::text;
use crate::text::{is_boundary, slice_bytes, str_eq};

verus! {

broadcast use vstd::seq::group_seq_axioms;

/// The grammars that source text is parsed with.
#[derive(Debug, Clone, Copy, PartialEq, Eq, Structural)]
pub enum Grammar {
    Rust,
    Python,
    JavaScript,
    TypeScript,
    Tsx,
    Go,
}

impl Grammar {
    /// A number for the grammar.
    pub open spec fn code(self) -> int {
        match self {
            Grammar::Rust => 0,
            Grammar::Python => 1,
            Grammar::JavaScript => 2,
            Grammar::TypeScript => 3,
            Grammar::Tsx => 4,
            Grammar::Go => 5,
        }
    }
}

/// A node of a syntax tree.
#[derive(Debug)]
pub struct SyntaxRow {
    /// The number of ancestors.
    pub depth: usize,
    /// The node's kind in the grammar.
    pub kind: String,
    /// The name of the field under which the parent holds the node.
    pub field: Option<String>,
    /// Whether the node corresponds to a named rule of the grammar.
    pub named: bool,
    pub start_byte: usize,
    pub end_byte: usize,
    /// Rows, counted from zero.
    pub start_row: usize,
    pub end_row: usize,
}

/// The view of a [`SyntaxRow`].
pub struct SyntaxRowView {
    pub depth: usize,
    pub kind: Seq<char>,
    pub field: Option<Seq<char>>,
    pub named: bool,
    pub start_byte: usize,
    pub end_byte: usize,
    pub start_row: usize,
    pub end_row: usize,
}

impl View for SyntaxRow {
    type V = SyntaxRowView;

    open spec fn view(&self) -> SyntaxRowView {
        SyntaxRowView {
            depth: self.depth,
            kind: self.kind@,
            field: text::opt_view(self.field),
            named: self.named,
            start_byte: self.start_byte,
            end_byte: self.end_byte,
            start_row: self.start_row,
            end_row: self.end_row,
        }
    }
}

/// A syntax tree of `tree_sitter`.
#[verifier::external_type_specification]
#[verifier::external_body]
pub struct ExTree(tree_sitter::Tree);

/// The nodes that a syntax tree holds, each before its children.
pub uninterp spec fn tree_rows(tree: tree_sitter::Tree) -> Seq<SyntaxRowView>;

/// The nodes of the tree that `tree_sitter` makes of a source text with the
/// grammar of the given number; `None` where it makes no tree.
pub uninterp spec fn parsed_rows(grammar: int, source: Seq<char>) -> Option<Seq<SyntaxRowView>>;

/// Calls `tree_sitter::Parser::parse` after `set_language`. Claims that the
/// outcome depends on the grammar and the source alone; `None` where either
/// call fails.
#[verifier::external_body]
fn parse_tree(grammar: Grammar, source: &str) -> (r: Option<tree_sitter::Tree>)
    ensures
        match r {
            Some(tree) => parsed_rows(grammar.code(), source@) == Some(tree_rows(tree)),
            None => parsed_rows(grammar.code(), source@) is None,
        },
{
    let language = match grammar {
        Grammar::Rust => tree_sitter_rust::LANGUAGE,
        Grammar::Python => tree_sitter_python::LANGUAGE,
        Grammar::JavaScript => tree_sitter_javascript::LANGUAGE,
        Grammar::TypeScript => tree_sitter_typescript::LANGUAGE_TYPESCRIPT,
        Grammar::Tsx => tree_sitter_typescript::LANGUAGE_TSX,
        Grammar::Go => tree_sitter_go::LANGUAGE,
    };
    let mut parser = tree_sitter::Parser::new();
    parser.set_language(&language.into()).ok()?;
    parser.parse(source, None)
}

/// Walks a tree with a `tree_sitter::TreeCursor`, each node before its
/// children, and copies what each node says of itself: its depth, kind, field
/// name, whether it is named, and its position.
#[verifier::external_body]
fn walk_tree(tree: &tree_sitter::Tree) -> (rows: Vec<SyntaxRow>)
    ensures
        text::views(rows@) == tree_rows(*tree),
{
    let mut rows = Vec::new();
    let mut cursor = tree.walk();
    loop {
        let n = cursor.node();
        let (depth, kind, named) = (cursor.depth() as usize, n.kind().to_string(), n.is_named());
        let field = cursor.field_name().map(str::to_string);
        let (start_byte, end_byte) = (n.start_byte(), n.end_byte());
        let (start_row, end_row) = (n.start_position().row, n.end_position().row);
        rows.push(
            SyntaxRow { depth, kind, field, named, start_byte, end_byte, start_row, end_row },
        );
        if !cursor.goto_first_child() { while !cursor.goto_next_sibling() {
            if !cursor.goto_parent() { return rows; } } }
    }
}

/// The syntax tree of a source text; `None` where the parser makes none.
pub fn parse_rows(grammar: Grammar, source: &str) -> (r: Option<Vec<SyntaxRow>>)
    ensures
        match r {
            Some(rows) => parsed_rows(grammar.code(), source@) == Some(text::views(rows@)),
            None => parsed_rows(grammar.code(), source@) is None,
        },
{
    match parse_tree(grammar, source) {
        Some(tree) => Some(walk_tree(&tree)),
        None => None,
    }
}

// ---------------------------------------------------------------------------
// Positions
// ---------------------------------------------------------------------------

/// Whether a row's position is one in `source`.
pub open spec fn row_fits(row: SyntaxRowView, source: Seq<char>) -> bool {
    &&& row.start_byte <= row.end_byte
    &&& text::on_boundary(source, row.start_byte as int)
    &&& text::on_boundary(source, row.end_byte as int)
    &&& row.start_row < usize::MAX
    &&& row.end_row < usize::MAX
}

/// Whether every row's position is one in `source`.
pub open spec fn rows_fit(rows: Seq<SyntaxRowView>, source: Seq<char>) -> bool {
    forall|i: int| 0 <= i < rows.len() ==> #[trigger] row_fits(rows[i], source)
}

/// Whether every row's position is one in `source`.
pub fn check_rows(rows: &Vec<SyntaxRow>, source: &str) -> (r: bool)
    ensures
        r == rows_fit(text::views(rows@), source@),
{
    let ghost table = text::views(rows@);
    let mut i: usize = 0;
    while i < rows.len()
        invariant
            i <= rows@.len(),
            table == text::views(rows@),
            forall|k: int| 0 <= k < i ==> #[trigger] row_fits(table[k], source@),
        decreases rows@.len() - i,
    {
        let row: &SyntaxRow = &rows[i];
        let fits: bool = row.start_byte <= row.end_byte && is_boundary(source, row.start_byte)
            && is_boundary(source, row.end_byte) && row.start_row < usize::MAX && row.end_row
            < usize::MAX;
        assert(fits == row_fits(table[i as int], source@));
        if !fits {
            return false;
        }
        i = i + 1;
    }
    true
}

/// The source text of row `i`.
pub open spec fn row_text(rows: Seq<SyntaxRowView>, i: int, source: Seq<char>) -> Seq<char> {
    text::byte_slice(source, rows[i].start_byte as int, rows[i].end_byte as int)
}

/// The source text of row `i`.
pub fn node_text(rows: &Vec<SyntaxRow>, i: usize, source: &str) -> (r: String)
    requires
        i < rows@.len(),
        rows_fit(text::views(rows@), source@),
    ensures
        r@ == row_text(text::views(rows@), i as int, source@),
{
    assert(row_fits(text::views(rows@)[i as int], source@));
    slice_bytes(source, rows[i].start_byte, rows[i].end_byte).to_owned()
}

// ---------------------------------------------------------------------------
// Children
// ---------------------------------------------------------------------------

/// What a child is looked up by.
pub enum ChildTest<'a> {
    Field(&'a str),
    Kind(&'a str),
    Named,
}

impl<'a> ChildTest<'a> {
    pub open spec fn holds(self, row: SyntaxRowView) -> bool {
        match self {
            ChildTest::Field(name) => row.field == Some(name@),
            ChildTest::Kind(kind) => row.kind == kind@,
            ChildTest::Named => row.named,
        }
    }

    fn check(&self, row: &SyntaxRow) -> (r: bool)
        ensures
            r == self.holds(row@),
    {
        match self {
            ChildTest::Field(name) => match &row.field {
                Some(field) => str_eq(field.as_str(), name),
                None => false,
            },
            ChildTest::Kind(kind) => str_eq(row.kind.as_str(), kind),
            ChildTest::Named => row.named,
        }
    }
}

/// Whether row `j` lies below row `i`, given that all rows between them do.
pub open spec fn is_below(rows: Seq<SyntaxRowView>, i: int, j: int) -> bool {
    j < rows.len() && rows[j].depth > rows[i].depth
}

/// Whether row `j`, which lies below row `i`, is a child of it.
pub open spec fn is_child(rows: Seq<SyntaxRowView>, i: int, j: int) -> bool {
    rows[j].depth == rows[i].depth + 1
}

/// The first child of row `i` at or after row `j` that passes the test.
pub open spec fn child_from(
    rows: Seq<SyntaxRowView>,
    i: int,
    j: int,
    test: spec_fn(SyntaxRowView) -> bool,
) -> Option<int>
    decreases rows.len() - j,
{
    if !is_below(rows, i, j) {
        None
    } else if is_child(rows, i, j) && test(rows[j]) {
        Some(j)
    } else {
        child_from(rows, i, j + 1, test)
    }
}

/// The first child of row `i` that the parent holds under the given field name.
pub open spec fn child_by_field(rows: Seq<SyntaxRowView>, i: int, name: Seq<char>) -> Option<int> {
    child_from(rows, i, i + 1, |row: SyntaxRowView| row.field == Some(name))
}

/// The first child of row `i` of the given kind.
pub open spec fn child_by_kind(rows: Seq<SyntaxRowView>, i: int, kind: Seq<char>) -> Option<int> {
    child_from(rows, i, i + 1, |row: SyntaxRowView| row.kind == kind)
}

/// The first child of row `i` that is named.
pub open spec fn named_child(rows: Seq<SyntaxRowView>, i: int) -> Option<int> {
    child_from(rows, i, i + 1, |row: SyntaxRowView| row.named)
}

/// The text of an optional row.
pub open spec fn opt_text(rows: Seq<SyntaxRowView>, i: Option<int>, source: Seq<char>) -> Option<
    Seq<char>,
> {
    match i {
        Some(j) => Some(row_text(rows, j, source)),
        None => None,
    }
}

/// An optional index as a number.
pub open spec fn opt_int(i: Option<usize>) -> Option<int> {
    match i {
        Some(j) => Some(j as int),
        None => None,
    }
}

/// The first child of row `i` that passes the test.
fn find_child(rows: &Vec<SyntaxRow>, i: usize, test: &ChildTest) -> (r: Option<usize>)
    requires
        i < rows@.len(),
    ensures
        opt_int(r) == child_from(
            text::views(rows@),
            i as int,
            i + 1,
            |row: SyntaxRowView| test.holds(row),
        ),
        r is Some ==> i < r->0 < rows@.len(),
{
    let ghost table = text::views(rows@);
    let ghost p = |row: SyntaxRowView| test.holds(row);
    let n: usize = rows.len();
    let depth: usize = rows[i].depth;
    let mut j: usize = i + 1;
    while j < n && rows[j].depth > depth
        invariant
            i < j <= n == rows@.len(),
            table == text::views(rows@),
            depth == rows@[i as int].depth,
            p == (|row: SyntaxRowView| test.holds(row)),
            child_from(table, i as int, i + 1, p) == child_from(table, i as int, j as int, p),
        decreases rows@.len() - j,
    {
        if rows[j].depth - 1 == depth && test.check(&rows[j]) {
            return Some(j);
        }
        j = j + 1;
    }
    None
}

/// The first child of row `i` under the given field name.
pub fn find_child_by_field(rows: &Vec<SyntaxRow>, i: usize, name: &str) -> (r: Option<usize>)
    requires
        i < rows@.len(),
    ensures
        opt_int(r) == child_by_field(text::views(rows@), i as int, name@),
        r is Some ==> i < r->0 < rows@.len(),
{
    let test: ChildTest = ChildTest::Field(name);
    assert((|row: SyntaxRowView| test.holds(row)) =~= (|row: SyntaxRowView|
        row.field == Some(name@)));
    find_child(rows, i, &test)
}

/// The first child of row `i` of the given kind.
pub fn find_child_by_kind(rows: &Vec<SyntaxRow>, i: usize, kind: &str) -> (r: Option<usize>)
    requires
        i < rows@.len(),
    ensures
        opt_int(r) == child_by_kind(text::views(rows@), i as int, kind@),
        r is Some ==> i < r->0 < rows@.len(),
{
    let test: ChildTest = ChildTest::Kind(kind);
    assert((|row: SyntaxRowView| test.holds(row)) =~= (|row: SyntaxRowView| row.kind == kind@));
    find_child(rows, i, &test)
}

/// The first child of row `i` that is named.
pub fn find_named_child(rows: &Vec<SyntaxRow>, i: usize) -> (r: Option<usize>)
    requires
        i < rows@.len(),
    ensures
        opt_int(r) == named_child(text::views(rows@), i as int),
        r is Some ==> i < r->0 < rows@.len(),
{
    let test: ChildTest = ChildTest::Named;
    assert((|row: SyntaxRowView| test.holds(row)) =~= (|row: SyntaxRowView| row.named));
    find_child(rows, i, &test)
}

/// The text of the first child of row `i` of the given kind.
pub fn find_child_text(rows: &Vec<SyntaxRow>, i: usize, kind: &str, source: &str) -> (r: Option<
    String,
>)
    requires
        i < rows@.len(),
        rows_fit(text::views(rows@), source@),
    ensures
        text::opt_view(r) == opt_text(
            text::views(rows@),
            child_by_kind(text::views(rows@), i as int, kind@),
            source@,
        ),
{
    match find_child_by_kind(rows, i, kind) {
        Some(j) => Some(node_text(rows, j, source)),
        None => None,
    }
}

/// The text of the first child of row `i` under the given field name.
pub fn find_field_text(rows: &Vec<SyntaxRow>, i: usize, name: &str, source: &str) -> (r: Option<
    String,
>)
    requires
        i < rows@.len(),
        rows_fit(text::views(rows@), source@),
    ensures
        text::opt_view(r) == opt_text(
            text::views(rows@),
            child_by_field(text::views(rows@), i as int, name@),
            source@,
        ),
{
    match find_child_by_field(rows, i, name) {
        Some(j) => Some(node_text(rows, j, source)),
        None => None,
    }
}

} // verus!
