//! What the references of a source file are: the functions that are called in it
//! and the names that are imported, each with the text that names it and the text
//! that qualifies it.

use vstd::prelude::*;
use crate::document::{RefType, ReferenceView};
use crate::parse::references;
use crate::parse::references::ImportStyle;
use crate::parse::syntax;
use crate::parse::syntax::SyntaxRowView;
use crate::parse::tree;
use crate::parse::tree_sitter_parse;
use crate::parse::FileType;
use crate::strings;

verus! {

broadcast use {vstd::string::group_string_axioms, vstd::seq::group_seq_axioms};

// ---------------------------------------------------------------------------
// Calls
// ---------------------------------------------------------------------------

/// Whether a row of a kind is a call.
pub open spec fn is_call(file_type: FileType, kind: Seq<char>) -> bool {
    match file_type {
        FileType::Python => kind == "call"@,
        FileType::Rust | FileType::JavaScript | FileType::TypeScript | FileType::Go => kind
            == "call_expression"@,
        FileType::Markdown | FileType::Other => false,
    }
}

/// Whether row `c` is the child of row `f` that names the function, where the
/// expression at row `f` takes it from something else: `x.c`, `x::c`.
pub open spec fn is_member(rows: Seq<SyntaxRowView>, f: int, c: int) -> bool {
    let kind = rows[f].kind;
    ||| kind == "selector_expression"@ && tree::is_first_field(rows, f, "field"@, c)
    ||| kind == "scoped_identifier"@ && tree::is_first_field(rows, f, "name"@, c)
    ||| (kind == "member_expression"@ || kind == "attribute"@ || kind == "field_expression"@) && {
        ||| tree::is_first_field(rows, f, "property"@, c)
        ||| tree::lacks_field(rows, f, "property"@) && tree::is_first_field(
            rows,
            f,
            "attribute"@,
            c,
        )
        ||| tree::lacks_field(rows, f, "property"@) && tree::lacks_field(rows, f, "attribute"@)
            && tree::is_first_field(rows, f, "field"@, c)
    }
}

/// Whether row `q` is what the function of the expression at row `f` is taken from.
pub open spec fn is_qualifier(rows: Seq<SyntaxRowView>, f: int, q: int) -> bool {
    let kind = rows[f].kind;
    ||| kind == "selector_expression"@ && tree::is_first_field(rows, f, "operand"@, q)
    ||| kind == "scoped_identifier"@ && tree::is_first_field(rows, f, "path"@, q)
    ||| (kind == "member_expression"@ || kind == "attribute"@ || kind == "field_expression"@)
        && tree::is_first_field(rows, f, "object"@, q)
}

/// Whether a reference is to the function that the expression at row `f` names: by
/// the text of its member, qualified by the text of what that is taken from, or else
/// by the whole text.
pub open spec fn refers_to(
    r: ReferenceView,
    rows: Seq<SyntaxRowView>,
    f: int,
    source: Seq<char>,
) -> bool {
    if exists|c: int| #[trigger] is_member(rows, f, c) {
        &&& forall|c: int| #[trigger]
            is_member(rows, f, c) ==> r.name == tree::written(rows, c, source)
        &&& forall|q: int| #[trigger]
            is_qualifier(rows, f, q) ==> r.qualifier == Some(tree::written(rows, q, source))
        &&& (forall|q: int| !#[trigger] is_qualifier(rows, f, q)) ==> r.qualifier is None
    } else {
        r.name == tree::written(rows, f, source) && r.qualifier is None
    }
}

/// Whether a reference stands where row `i` stands.
pub open spec fn stands_at(r: ReferenceView, rows: Seq<SyntaxRowView>, i: int) -> bool {
    &&& r.span == (rows[i].start_byte..rows[i].end_byte)
    &&& r.line_range == ((rows[i].start_row + 1) as usize, (rows[i].end_row + 1) as usize)
}

/// A lookup by field finds the first child under that field.
proof fn lemma_field(rows: Seq<SyntaxRowView>, i: int, field: Seq<char>)
    requires
        0 <= i < rows.len(),
    ensures
        ({
            let found = syntax::child_by_field(rows, i, field);
            &&& tree::lacks_field(rows, i, field) <==> found is None
            &&& found is Some ==> tree::is_first_field(rows, i, field, found->0)
            &&& forall|c: int| #[trigger]
                tree::is_first_field(rows, i, field, c) ==> found == Some(c)
        }),
{
    let found = syntax::child_by_field(rows, i, field);
    tree::law_child_by_field(rows, i, field);
    assert(found is Some ==> tree::is_some_at(found, found->0));
    assert forall|c: int| #[trigger] tree::is_first_field(rows, i, field, c) implies found == Some(
        c,
    ) by {
        assert(tree::is_some_at(found, c));
    }
}

/// What a call refers to is the function that its expression names.
proof fn lemma_call_target(rows: Seq<SyntaxRowView>, f: int, source: Seq<char>, r: ReferenceView)
    requires
        0 <= f < rows.len(),
        (r.name, r.qualifier) == references::call_target(rows, f, source),
    ensures
        refers_to(r, rows, f, source),
{
    reveal_strlit("member_expression");
    assert("member_expression"@.len() == 17);
    reveal_strlit("attribute");
    assert("attribute"@.len() == 9);
    reveal_strlit("field_expression");
    assert("field_expression"@.len() == 16);
    reveal_strlit("scoped_identifier");
    assert("scoped_identifier"@.len() == 17);
    reveal_strlit("selector_expression");
    assert("selector_expression"@.len() == 19);
    assert("member_expression"@[0] == 'm');
    assert("scoped_identifier"@[0] == 's');
    let kind = rows[f].kind;
    lemma_field(rows, f, "property"@);
    lemma_field(rows, f, "attribute"@);
    lemma_field(rows, f, "field"@);
    lemma_field(rows, f, "name"@);
    lemma_field(rows, f, "operand"@);
    lemma_field(rows, f, "path"@);
    lemma_field(rows, f, "object"@);
    let property = syntax::child_by_field(rows, f, "property"@);
    let attribute = syntax::child_by_field(rows, f, "attribute"@);
    let field = syntax::child_by_field(rows, f, "field"@);
    let name = syntax::child_by_field(rows, f, "name"@);
    let operand = syntax::child_by_field(rows, f, "operand"@);
    let path = syntax::child_by_field(rows, f, "path"@);
    let object = syntax::child_by_field(rows, f, "object"@);
    if kind == "selector_expression"@ {
        if field is Some {
            assert(is_member(rows, f, field->0));
        }
        if operand is Some {
            assert(is_qualifier(rows, f, operand->0));
        }
    } else if kind == "scoped_identifier"@ {
        if name is Some {
            assert(is_member(rows, f, name->0));
        }
        if path is Some {
            assert(is_qualifier(rows, f, path->0));
        }
    } else if kind == "member_expression"@ || kind == "attribute"@ || kind == "field_expression"@ {
        if property is Some {
            assert(is_member(rows, f, property->0));
        } else if attribute is Some {
            assert(is_member(rows, f, attribute->0));
        } else if field is Some {
            assert(is_member(rows, f, field->0));
        }
        if object is Some {
            assert(is_qualifier(rows, f, object->0));
        }
    }
}

/// A call makes one reference, at the call, to the function that its expression
/// names, unless the name is empty.
pub proof fn law_call_referenced(
    file_type: FileType,
    rows: Seq<SyntaxRowView>,
    source: Seq<char>,
    i: int,
    f: int,
)
    requires
        0 <= i < rows.len(),
        is_call(file_type, rows[i].kind),
        tree::is_first_field(rows, i, "function"@, f),
    ensures
        ({
            let refs = references::references_of(rows, i, source, file_type);
            if refs.len() == 0 {
                exists|r: ReferenceView| #[trigger] refers_to(r, rows, f, source) && r.name.len() == 0
            } else {
                &&& refs.len() == 1 && refs[0].name.len() > 0
                &&& refers_to(refs[0], rows, f, source)
                &&& stands_at(refs[0], rows, i)
                &&& refs[0].ref_type == RefType::Call
            }
        }),
{
    tree::law_child_by_field(rows, i, "function"@);
    assert(tree::is_some_at(syntax::child_by_field(rows, i, "function"@), f));
    let target = references::call_target(rows, f, source);
    let r = references::reference_at(rows, i, target.0, target.1, RefType::Call);
    lemma_call_target(rows, f, source, r);
}

// ---------------------------------------------------------------------------
// Imports
// ---------------------------------------------------------------------------

/// Whether a row of a kind is an import whose names may lie deeper, in clauses.
pub open spec fn is_nested_import(file_type: FileType, kind: Seq<char>) -> bool {
    match file_type {
        FileType::JavaScript | FileType::TypeScript => kind == "import_statement"@,
        FileType::Rust => kind == "use_declaration"@,
        _ => false,
    }
}

/// Whether the children of a row of a kind are imported as the row is.
pub open spec fn holds_names(file_type: FileType, kind: Seq<char>) -> bool {
    match file_type {
        FileType::JavaScript | FileType::TypeScript => kind == "import_clause"@ || kind
            == "named_imports"@ || kind == "import_specifier"@,
        FileType::Rust => kind == "use_tree"@ || kind == "use_list"@ || kind
            == "scoped_use_list"@,
        _ => false,
    }
}

/// Whether a path leads from an import down to one of its names, each row of it a
/// child of the row before, through clauses alone.
pub open spec fn is_clause_path(
    file_type: FileType,
    rows: Seq<SyntaxRowView>,
    path: Seq<int>,
) -> bool {
    &&& path.len() >= 2
    &&& forall|k: int|
        0 <= k < path.len() - 1 ==> tree::is_child_row(rows, #[trigger] path[k], path[k + 1])
    &&& forall|k: int|
        0 < k < path.len() - 1 ==> holds_names(file_type, rows[#[trigger] path[k]].kind)
    &&& !holds_names(file_type, rows[path.last()].kind)
}

/// Whether a reference is to the name that row `j` of an import imports.
pub open spec fn is_import(
    file_type: FileType,
    r: ReferenceView,
    rows: Seq<SyntaxRowView>,
    j: int,
    source: Seq<char>,
) -> bool {
    let whole = tree::written(rows, j, source);
    &&& r.ref_type == RefType::Import && stands_at(r, rows, j) && r.name.len() > 0
    &&& if rows[j].kind == "identifier"@ {
        &&& r.name == whole && r.qualifier is None
        &&& file_type != FileType::Rust ==> whole != "from"@ && whole != "import"@
    } else {
        &&& file_type == FileType::Rust && rows[j].kind == "scoped_identifier"@
        &&& exists|c: int| #[trigger]
            tree::is_first_field(rows, j, "name"@, c) && r.name == tree::written(rows, c, source)
        &&& forall|q: int| #[trigger]
            tree::is_first_field(rows, j, "path"@, q) ==> r.qualifier == Some(
                tree::written(rows, q, source),
            )
        &&& tree::lacks_field(rows, j, "path"@) ==> r.qualifier is None
    }
}

/// The style in which a language nests its imports.
spec fn style_of(file_type: FileType) -> ImportStyle {
    if file_type == FileType::Rust {
        ImportStyle::Use
    } else {
        ImportStyle::Script
    }
}

/// Whether imports nest in a language.
spec fn nests(file_type: FileType) -> bool {
    file_type == FileType::Rust || file_type == FileType::JavaScript || file_type
        == FileType::TypeScript
}

proof fn lemma_leaf(
    file_type: FileType,
    rows: Seq<SyntaxRowView>,
    j: int,
    source: Seq<char>,
    r: ReferenceView,
)
    requires
        nests(file_type),
        0 <= j < rows.len(),
    ensures
        references::import_leaf(rows, j, source, style_of(file_type)).contains(r) <==> is_import(
            file_type,
            r,
            rows,
            j,
            source,
        ),
{
    reveal_strlit("identifier");
    assert("identifier"@.len() == 10);
    reveal_strlit("scoped_identifier");
    assert("scoped_identifier"@.len() == 17);
    let style = style_of(file_type);
    let leaf = references::import_leaf(rows, j, source, style);
    lemma_field(rows, j, "name"@);
    lemma_field(rows, j, "path"@);
    if leaf.len() > 0 {
        assert(leaf.len() == 1);
        assert(leaf[0] == r <==> leaf.contains(r));
    }
}

/// A row below which an import is walked hands on the references of each child.
proof fn lemma_children(
    rows: Seq<SyntaxRowView>,
    i: int,
    j: int,
    source: Seq<char>,
    style: ImportStyle,
    r: ReferenceView,
)
    requires
        0 <= i < j <= rows.len(),
        forall|k: int| i < k < j ==> (#[trigger] rows[k]).depth > rows[i].depth,
    ensures
        references::import_names_below(rows, i, j, source, style).contains(r) <==> exists|c: int|
            j <= c && #[trigger] tree::is_child_row(rows, i, c) && references::import_names(
                rows,
                c,
                source,
                style,
            ).contains(r),
    decreases rows.len() - j,
{
    let all = references::import_names_below(rows, i, j, source, style);
    if !syntax::is_below(rows, i, j) {
        assert forall|c: int| j <= c implies !#[trigger] tree::is_child_row(rows, i, c) by {
            if tree::is_under(rows, i, c) {
                assert(rows[j].depth > rows[i].depth);
            }
        }
    } else {
        lemma_children(rows, i, j + 1, source, style, r);
        let rest = references::import_names_below(rows, i, j + 1, source, style);
        if syntax::is_child(rows, i, j) {
            assert(tree::is_child_row(rows, i, j));
            let first = references::import_names(rows, j, source, style);
            lemma_contains_add(first, rest, r);
            assert(all == first + rest);
        } else {
            assert(!tree::is_child_row(rows, i, j));
            assert(all == rest);
        }
    }
}

proof fn lemma_contains_add(a: Seq<ReferenceView>, b: Seq<ReferenceView>, r: ReferenceView)
    ensures
        (a + b).contains(r) <==> a.contains(r) || b.contains(r),
{
    if a.contains(r) {
        let k = a.index_of(r);
        assert((a + b)[k] == r);
    }
    if b.contains(r) {
        let k = b.index_of(r);
        assert((a + b)[a.len() + k] == r);
    }
    if (a + b).contains(r) {
        let k = (a + b).index_of(r);
        if k < a.len() {
            assert(a[k] == r);
        } else {
            assert(b[k - a.len()] == r);
        }
    }
}

/// A path through clauses reaches its last row from its first.
proof fn lemma_path_reaches(
    file_type: FileType,
    rows: Seq<SyntaxRowView>,
    path: Seq<int>,
    source: Seq<char>,
    r: ReferenceView,
)
    requires
        nests(file_type),
        is_clause_path(file_type, rows, path),
        is_import(file_type, r, rows, path.last(), source),
    ensures
        references::import_names_below(
            rows,
            path[0],
            path[0] + 1,
            source,
            style_of(file_type),
        ).contains(r),
    decreases path.len(),
{
    let i = path[0];
    let c = path[1];
    let style = style_of(file_type);
    assert(tree::is_child_row(rows, path[0], path[0int + 1]));
    if path.len() == 2 {
        assert(path.last() == c);
        lemma_leaf(file_type, rows, c, source, r);
        assert(references::import_names(rows, c, source, style).contains(r));
    } else {
        let tail = path.drop_first();
        assert(tail.last() == path.last() && tail[0] == c);
        assert forall|k: int| 0 <= k < tail.len() - 1 implies tree::is_child_row(
            rows,
            #[trigger] tail[k],
            tail[k + 1],
        ) by {
            assert(tail[k] == path[k + 1] && tail[k + 1] == path[k + 1 + 1]);
        }
        assert forall|k: int| 0 < k < tail.len() - 1 implies holds_names(
            file_type,
            rows[#[trigger] tail[k]].kind,
        ) by {
            assert(tail[k] == path[k + 1]);
        }
        lemma_path_reaches(file_type, rows, tail, source, r);
        assert(holds_names(file_type, rows[path[1]].kind));
        assert(references::import_names(rows, c, source, style).contains(r));
    }
    lemma_children(rows, i, i + 1, source, style, r);
}

/// What a walk below a row finds, a path through clauses leads to.
proof fn lemma_walk_has_path(
    file_type: FileType,
    rows: Seq<SyntaxRowView>,
    i: int,
    source: Seq<char>,
    r: ReferenceView,
) -> (path: Seq<int>)
    requires
        nests(file_type),
        0 <= i < rows.len(),
        references::import_names_below(rows, i, i + 1, source, style_of(file_type)).contains(r),
    ensures
        is_clause_path(file_type, rows, path),
        path[0] == i,
        is_import(file_type, r, rows, path.last(), source),
    decreases rows.len() - i,
{
    let style = style_of(file_type);
    lemma_children(rows, i, i + 1, source, style, r);
    let c = choose|c: int|
        i + 1 <= c && #[trigger] tree::is_child_row(rows, i, c) && references::import_names(
            rows,
            c,
            source,
            style,
        ).contains(r);
    if holds_names(file_type, rows[c].kind) {
        let tail = lemma_walk_has_path(file_type, rows, c, source, r);
        let path = seq![i] + tail;
        assert(path.last() == tail.last());
        assert forall|k: int| 0 <= k < path.len() - 1 implies tree::is_child_row(
            rows,
            #[trigger] path[k],
            path[k + 1],
        ) by {
            if k > 0 {
                assert(path[k] == tail[k - 1] && path[k + 1] == tail[k - 1 + 1]);
            }
        }
        assert forall|k: int| 0 < k < path.len() - 1 implies holds_names(
            file_type,
            rows[#[trigger] path[k]].kind,
        ) by {
            assert(path[k] == tail[k - 1]);
        }
        path
    } else {
        lemma_leaf(file_type, rows, c, source, r);
        let path = seq![i, c];
        assert(path.last() == c);
        path
    }
}

/// The references of an import of JavaScript, TypeScript or Rust are those to the
/// names that paths through its clauses lead to, and no others.
pub proof fn law_nested_import_referenced(
    file_type: FileType,
    rows: Seq<SyntaxRowView>,
    source: Seq<char>,
    i: int,
    r: ReferenceView,
)
    requires
        0 <= i < rows.len(),
        is_nested_import(file_type, rows[i].kind),
    ensures
        references::references_of(rows, i, source, file_type).contains(r) <==> exists|
            path: Seq<int>,
        | #[trigger]
            is_clause_path(file_type, rows, path) && path[0] == i && is_import(
                file_type,
                r,
                rows,
                path.last(),
                source,
            ),
{
    reveal_strlit("call_expression");
    assert("call_expression"@.len() == 15);
    reveal_strlit("import_statement");
    assert("import_statement"@.len() == 16);
    reveal_strlit("use_declaration");
    assert("use_declaration"@.len() == 15);
    assert("call_expression"@[0] == 'c');
    assert("use_declaration"@[0] == 'u');
    let refs = references::references_of(rows, i, source, file_type);
    assert(refs == references::import_names_below(rows, i, i + 1, source, style_of(file_type)));
    if refs.contains(r) {
        let path = lemma_walk_has_path(file_type, rows, i, source, r);
        assert(is_clause_path(file_type, rows, path));
    }
    if exists|path: Seq<int>| #[trigger]
        is_clause_path(file_type, rows, path) && path[0] == i && is_import(
            file_type,
            r,
            rows,
            path.last(),
            source,
        ) {
        let path = choose|path: Seq<int>| #[trigger]
            is_clause_path(file_type, rows, path) && path[0] == i && is_import(
                file_type,
                r,
                rows,
                path.last(),
                source,
            );
        lemma_path_reaches(file_type, rows, path, source, r);
    }
}

/// Whether a reference is to the module that a child of a Python import names: by
/// the whole name, or by the name before `as`.
pub open spec fn is_python_import(
    r: ReferenceView,
    rows: Seq<SyntaxRowView>,
    j: int,
    source: Seq<char>,
) -> bool {
    &&& r.ref_type == RefType::Import && stands_at(r, rows, j) && r.qualifier is None
    &&& r.name.len() > 0
    &&& {
        ||| rows[j].kind == "dotted_name"@ && r.name == tree::written(rows, j, source)
        ||| rows[j].kind == "aliased_import"@ && exists|c: int| #[trigger]
            tree::is_first_field(rows, j, "name"@, c) && r.name == tree::written(rows, c, source)
    }
}

proof fn lemma_python_import(
    rows: Seq<SyntaxRowView>,
    j: int,
    source: Seq<char>,
    r: ReferenceView,
)
    requires
        0 <= j < rows.len(),
    ensures
        references::python_import(rows, j, source).contains(r) <==> is_python_import(
            r,
            rows,
            j,
            source,
        ),
{
    reveal_strlit("dotted_name");
    assert("dotted_name"@.len() == 11);
    reveal_strlit("aliased_import");
    assert("aliased_import"@.len() == 14);
    let own = references::python_import(rows, j, source);
    lemma_field(rows, j, "name"@);
    if own.len() > 0 {
        assert(own.len() == 1);
        assert(own[0] == r <==> own.contains(r));
    }
}

proof fn lemma_python_children(
    rows: Seq<SyntaxRowView>,
    i: int,
    j: int,
    source: Seq<char>,
    r: ReferenceView,
)
    requires
        0 <= i < j <= rows.len(),
        forall|k: int| i < k < j ==> (#[trigger] rows[k]).depth > rows[i].depth,
    ensures
        references::python_imports_below(rows, i, j, source).contains(r) <==> exists|c: int|
            j <= c && #[trigger] tree::is_child_row(rows, i, c) && is_python_import(
                r,
                rows,
                c,
                source,
            ),
    decreases rows.len() - j,
{
    let all = references::python_imports_below(rows, i, j, source);
    if !syntax::is_below(rows, i, j) {
        assert forall|c: int| j <= c implies !#[trigger] tree::is_child_row(rows, i, c) by {
            if tree::is_under(rows, i, c) {
                assert(rows[j].depth > rows[i].depth);
            }
        }
    } else {
        lemma_python_children(rows, i, j + 1, source, r);
        let rest = references::python_imports_below(rows, i, j + 1, source);
        if syntax::is_child(rows, i, j) {
            assert(tree::is_child_row(rows, i, j));
            let first = references::python_import(rows, j, source);
            lemma_python_import(rows, j, source, r);
            lemma_contains_add(first, rest, r);
            assert(all == first + rest);
        } else {
            assert(!tree::is_child_row(rows, i, j));
            assert(all == rest);
        }
    }
}

/// The references of a Python import are those to the modules and names that its
/// children name, and no others.
pub proof fn law_python_import_referenced(
    rows: Seq<SyntaxRowView>,
    source: Seq<char>,
    i: int,
    r: ReferenceView,
)
    requires
        0 <= i < rows.len(),
        rows[i].kind == "import_statement"@ || rows[i].kind == "import_from_statement"@,
    ensures
        references::references_of(rows, i, source, FileType::Python).contains(r) <==> exists|
            c: int,
        | #[trigger]
            tree::is_child_row(rows, i, c) && is_python_import(r, rows, c, source),
{
    reveal_strlit("call");
    assert("call"@.len() == 4);
    reveal_strlit("import_statement");
    assert("import_statement"@.len() == 16);
    reveal_strlit("import_from_statement");
    assert("import_from_statement"@.len() == 21);
    lemma_python_children(rows, i, i + 1, source, r);
    assert(references::references_of(rows, i, source, FileType::Python)
        == references::python_imports_below(rows, i, i + 1, source));
    assert forall|c: int| #[trigger] tree::is_child_row(rows, i, c) implies i + 1 <= c by {
        assert(tree::is_under(rows, i, c));
    }
}

/// A Go import of a path makes one reference, at the import, qualified by the path
/// without its quotes and named by what follows the last slash of the path.
pub proof fn law_go_import_referenced(
    rows: Seq<SyntaxRowView>,
    source: Seq<char>,
    i: int,
    p: int,
    path: Seq<char>,
    base: int,
)
    requires
        0 <= i < rows.len(),
        rows[i].kind == "import_spec"@,
        tree::is_first_field(rows, i, "path"@, p),
        tree::written(rows, p, source) == seq!['"'] + path + seq!['"'],
        path.len() > 0 && path[0] != '"' && path.last() != '"',
        0 <= base < path.len(),
        base > 0 ==> path[base - 1] == '/',
        forall|k: int| base <= k < path.len() ==> path[k] != '/',
    ensures
        ({
            let refs = references::references_of(rows, i, source, FileType::Go);
            &&& refs.len() == 1
            &&& refs[0].ref_type == RefType::Import && stands_at(refs[0], rows, i)
            &&& refs[0].qualifier == Some(path)
            &&& refs[0].name == path.skip(base)
        }),
{
    reveal_strlit("call_expression");
    assert("call_expression"@.len() == 15);
    reveal_strlit("import_spec");
    assert("import_spec"@.len() == 11);
    tree::law_child_by_field(rows, i, "path"@);
    assert(tree::is_some_at(syntax::child_by_field(rows, i, "path"@), p));
    let quoted = tree::written(rows, p, source);
    assert(references::references_of(rows, i, source, FileType::Go) == references::go_import(
        rows,
        i,
        source,
    ));
    reveal_with_fuel(references::unquote_start, 3);
    reveal_with_fuel(references::unquote_end, 3);
    assert(quoted.drop_first() =~= path + seq!['"']);
    assert((path + seq!['"']).drop_last() =~= path);
    assert(references::unquote(quoted) == path);
    strings::lemma_after_last(path, '/', path.len() as int);
    let found = strings::after_last(path, '/', path.len() as int);
    assert(found == base) by {
        if found > base {
            assert(path[found - 1] == '/');
        }
        if found < base {
            assert(path[base - 1] != '/');
        }
    }
    assert(path.skip(base).len() > 0);
}

// ---------------------------------------------------------------------------
// The whole file
// ---------------------------------------------------------------------------

/// The references of a file are those of its rows, and no others.
pub proof fn law_references_of_rows(
    file_type: FileType,
    rows: Seq<SyntaxRowView>,
    n: nat,
    source: Seq<char>,
    r: ReferenceView,
)
    ensures
        tree_sitter_parse::all_references(rows, n, source, file_type).contains(r) <==> exists|i: int|
            0 <= i < n && (#[trigger] references::references_of(
                rows,
                i,
                source,
                file_type,
            )).contains(r),
    decreases n,
{
    if n > 0 {
        law_references_of_rows(file_type, rows, (n - 1) as nat, source, r);
        lemma_contains_add(
            tree_sitter_parse::all_references(rows, (n - 1) as nat, source, file_type),
            references::references_of(rows, n - 1, source, file_type),
            r,
        );
    }
}

/// A row that is neither a call nor an import makes no reference, and a call of a
/// language makes none but to a function.
pub proof fn law_other_rows_unreferenced(
    file_type: FileType,
    rows: Seq<SyntaxRowView>,
    source: Seq<char>,
    i: int,
)
    requires
        0 <= i < rows.len(),
    ensures
        ({
            let kind = rows[i].kind;
            let refs = references::references_of(rows, i, source, file_type);
            &&& is_call(file_type, kind) && tree::lacks_field(rows, i, "function"@) ==> refs.len() == 0
            &&& !is_call(file_type, kind) && !is_nested_import(file_type, kind) && !(file_type
                == FileType::Python && (kind == "import_statement"@ || kind
                == "import_from_statement"@)) && !(file_type == FileType::Go && kind
                == "import_spec"@) ==> refs.len() == 0
        }),
{
    tree::law_child_by_field(rows, i, "function"@);
}

} // verus!
