//! Reference extraction (calls, imports) from syntax tables.

use vstd::prelude::*;
use crate::document::{RefType, Reference, ReferenceView};
use crate::parse::syntax;
use crate::parse::syntax::{find_child_by_field, find_field_text, node_text, SyntaxRow, SyntaxRowView};
use crate::parse::FileType;
use crate::strings;
use crate::strings::find_after_last;
use crate::text;
use crate::text::{from_chars, str_eq, to_chars};

verus! {

broadcast use {vstd::string::group_string_axioms, vstd::seq::group_seq_axioms};

/// The text of the child of row `i` under the given field name.
pub open spec fn field_text(
    rows: Seq<SyntaxRowView>,
    i: int,
    name: Seq<char>,
    source: Seq<char>,
) -> Option<Seq<char>> {
    syntax::opt_text(rows, syntax::child_by_field(rows, i, name), source)
}

/// The first of two optional texts.
pub open spec fn or_text(a: Option<Seq<char>>, b: Option<Seq<char>>) -> Option<Seq<char>> {
    match a {
        Some(_) => a,
        None => b,
    }
}

// ---------------------------------------------------------------------------
// Calls
// ---------------------------------------------------------------------------

/// The name that a call of the function expression at row `i` refers to, and
/// its qualifier: the object, module path or operand that it is taken from.
pub open spec fn call_target(rows: Seq<SyntaxRowView>, i: int, source: Seq<char>) -> (
    Seq<char>,
    Option<Seq<char>>,
) {
    let kind = rows[i].kind;
    let whole = (syntax::row_text(rows, i, source), None::<Seq<char>>);
    if kind == "member_expression"@ || kind == "attribute"@ || kind == "field_expression"@ {
        let property = or_text(
            field_text(rows, i, "property"@, source),
            or_text(
                field_text(rows, i, "attribute"@, source),
                field_text(rows, i, "field"@, source),
            ),
        );
        match property {
            Some(p) => (p, field_text(rows, i, "object"@, source)),
            None => whole,
        }
    } else if kind == "scoped_identifier"@ {
        match field_text(rows, i, "name"@, source) {
            Some(name) => (name, field_text(rows, i, "path"@, source)),
            None => whole,
        }
    } else if kind == "selector_expression"@ {
        match field_text(rows, i, "field"@, source) {
            Some(field) => (field, field_text(rows, i, "operand"@, source)),
            None => whole,
        }
    } else {
        whole
    }
}

/// The call target (function name and optional qualifier).
pub fn extract_call_target(rows: &Vec<SyntaxRow>, i: usize, source: &str) -> (r: (
    String,
    Option<String>,
))
    requires
        i < rows@.len(),
        syntax::rows_fit(text::views(rows@), source@),
    ensures
        (r.0@, text::opt_view(r.1)) == call_target(text::views(rows@), i as int, source@),
{
    let kind: &str = rows[i].kind.as_str();
    if str_eq(kind, "member_expression") || str_eq(kind, "attribute") || str_eq(
        kind,
        "field_expression",
    ) {
        let property: Option<String> = match find_field_text(rows, i, "property", source) {
            Some(p) => Some(p),
            None => match find_field_text(rows, i, "attribute", source) {
                Some(p) => Some(p),
                None => find_field_text(rows, i, "field", source),
            },
        };
        match property {
            Some(p) => (p, find_field_text(rows, i, "object", source)),
            None => (node_text(rows, i, source), None),
        }
    } else if str_eq(kind, "scoped_identifier") {
        match find_field_text(rows, i, "name", source) {
            Some(name) => (name, find_field_text(rows, i, "path", source)),
            None => (node_text(rows, i, source), None),
        }
    } else if str_eq(kind, "selector_expression") {
        match find_field_text(rows, i, "field", source) {
            Some(field) => (field, find_field_text(rows, i, "operand", source)),
            None => (node_text(rows, i, source), None),
        }
    } else {
        (node_text(rows, i, source), None)
    }
}

/// A reference at the position of row `i`.
pub open spec fn reference_at(
    rows: Seq<SyntaxRowView>,
    i: int,
    name: Seq<char>,
    qualifier: Option<Seq<char>>,
    ref_type: RefType,
) -> ReferenceView {
    ReferenceView {
        name,
        qualifier,
        ref_type,
        span: rows[i].start_byte..rows[i].end_byte,
        line_range: ((rows[i].start_row + 1) as usize, (rows[i].end_row + 1) as usize),
    }
}

/// At most one reference: none where the name is empty.
pub open spec fn named_reference(
    rows: Seq<SyntaxRowView>,
    i: int,
    name: Seq<char>,
    qualifier: Option<Seq<char>>,
    ref_type: RefType,
) -> Seq<ReferenceView> {
    if name.len() == 0 {
        Seq::empty()
    } else {
        seq![reference_at(rows, i, name, qualifier, ref_type)]
    }
}

/// Appends a reference at the position of row `i`, unless its name is empty.
fn push_named(
    rows: &Vec<SyntaxRow>,
    i: usize,
    source: &str,
    name: String,
    qualifier: Option<String>,
    ref_type: RefType,
    refs: &mut Vec<Reference>,
)
    requires
        i < rows@.len(),
        syntax::rows_fit(text::views(rows@), source@),
    ensures
        text::views(final(refs)@) == text::views(old(refs)@) + named_reference(
            text::views(rows@),
            i as int,
            name@,
            text::opt_view(qualifier),
            ref_type,
        ),
{
    assert(syntax::row_fits(text::views(rows@)[i as int], source@));
    if !name.as_str().is_empty() {
        let ghost q = text::opt_view(qualifier);
        let ghost n = name@;
        let row: &SyntaxRow = &rows[i];
        let reference: Reference = Reference {
            name,
            qualifier,
            ref_type,
            span: row.start_byte..row.end_byte,
            line_range: (row.start_row + 1, row.end_row + 1),
        };
        proof {
            text::lemma_views_push(refs@, reference);
            assert(text::views(refs@).push(reference@) =~= text::views(refs@) + named_reference(
                text::views(rows@),
                i as int,
                n,
                q,
                ref_type,
            ));
        }
        refs.push(reference);
    } else {
        assert(text::views(refs@) + Seq::<ReferenceView>::empty() =~= text::views(refs@));
    }
}

/// The reference that a call at row `i` makes.
pub open spec fn call_reference(rows: Seq<SyntaxRowView>, i: int, source: Seq<char>) -> Seq<
    ReferenceView,
> {
    match syntax::child_by_field(rows, i, "function"@) {
        Some(f) => {
            let target = call_target(rows, f, source);
            named_reference(rows, i, target.0, target.1, RefType::Call)
        },
        None => Seq::empty(),
    }
}

fn push_call(rows: &Vec<SyntaxRow>, i: usize, source: &str, refs: &mut Vec<Reference>)
    requires
        i < rows@.len(),
        syntax::rows_fit(text::views(rows@), source@),
    ensures
        text::views(final(refs)@) == text::views(old(refs)@) + call_reference(
            text::views(rows@),
            i as int,
            source@,
        ),
{
    match find_child_by_field(rows, i, "function") {
        Some(f) => {
            let (name, qualifier): (String, Option<String>) = extract_call_target(rows, f, source);
            push_named(rows, i, source, name, qualifier, RefType::Call, refs);
        },
        None => {
            assert(text::views(refs@) + Seq::<ReferenceView>::empty() =~= text::views(refs@));
        },
    }
}

// ---------------------------------------------------------------------------
// Imports by walking an import clause
// ---------------------------------------------------------------------------

/// The two languages whose import clauses nest.
#[derive(Clone, Copy, PartialEq, Eq, Structural)]
pub enum ImportStyle {
    /// JavaScript and TypeScript.
    Script,
    /// Rust `use` declarations.
    Use,
}

/// Whether the names of an import clause lie below a row of this kind.
pub open spec fn is_clause(style: ImportStyle, kind: Seq<char>) -> bool {
    match style {
        ImportStyle::Script => kind == "import_clause"@ || kind == "named_imports"@ || kind
            == "import_specifier"@,
        ImportStyle::Use => kind == "use_tree"@ || kind == "use_list"@ || kind
            == "scoped_use_list"@,
    }
}

/// The reference that a row which holds no others makes.
pub open spec fn import_leaf(
    rows: Seq<SyntaxRowView>,
    i: int,
    source: Seq<char>,
    style: ImportStyle,
) -> Seq<ReferenceView> {
    let kind = rows[i].kind;
    let whole = syntax::row_text(rows, i, source);
    if kind == "identifier"@ {
        if style == ImportStyle::Script && (whole == "from"@ || whole == "import"@) {
            Seq::empty()
        } else {
            named_reference(rows, i, whole, None, RefType::Import)
        }
    } else if kind == "scoped_identifier"@ && style == ImportStyle::Use {
        match field_text(rows, i, "name"@, source) {
            Some(name) => named_reference(
                rows,
                i,
                name,
                field_text(rows, i, "path"@, source),
                RefType::Import,
            ),
            None => Seq::empty(),
        }
    } else {
        Seq::empty()
    }
}

/// The references of the import clause at row `i`.
pub open spec fn import_names(
    rows: Seq<SyntaxRowView>,
    i: int,
    source: Seq<char>,
    style: ImportStyle,
) -> Seq<ReferenceView>
    decreases rows.len() - i, 0int,
{
    if i < 0 || i >= rows.len() {
        Seq::empty()
    } else if is_clause(style, rows[i].kind) {
        import_names_below(rows, i, i + 1, source, style)
    } else {
        import_leaf(rows, i, source, style)
    }
}

/// The references of the children of row `i` at or after row `j`.
pub open spec fn import_names_below(
    rows: Seq<SyntaxRowView>,
    i: int,
    j: int,
    source: Seq<char>,
    style: ImportStyle,
) -> Seq<ReferenceView>
    decreases rows.len() - j, 1int,
{
    if j < 0 || !syntax::is_below(rows, i, j) {
        Seq::empty()
    } else if syntax::is_child(rows, i, j) {
        import_names(rows, j, source, style) + import_names_below(rows, i, j + 1, source, style)
    } else {
        import_names_below(rows, i, j + 1, source, style)
    }
}

fn check_clause(style: ImportStyle, kind: &str) -> (r: bool)
    ensures
        r == is_clause(style, kind@),
{
    match style {
        ImportStyle::Script => str_eq(kind, "import_clause") || str_eq(kind, "named_imports")
            || str_eq(kind, "import_specifier"),
        ImportStyle::Use => str_eq(kind, "use_tree") || str_eq(kind, "use_list") || str_eq(
            kind,
            "scoped_use_list",
        ),
    }
}

fn push_leaf(
    rows: &Vec<SyntaxRow>,
    i: usize,
    source: &str,
    style: ImportStyle,
    refs: &mut Vec<Reference>,
)
    requires
        i < rows@.len(),
        syntax::rows_fit(text::views(rows@), source@),
    ensures
        text::views(final(refs)@) == text::views(old(refs)@) + import_leaf(
            text::views(rows@),
            i as int,
            source@,
            style,
        ),
{
    let kind: &str = rows[i].kind.as_str();
    if str_eq(kind, "identifier") {
        let name: String = node_text(rows, i, source);
        if !(style == ImportStyle::Script && (str_eq(name.as_str(), "from") || str_eq(
            name.as_str(),
            "import",
        ))) {
            push_named(rows, i, source, name, None, RefType::Import, refs);
            return ;
        }
    } else if str_eq(kind, "scoped_identifier") && style == ImportStyle::Use {
        match find_field_text(rows, i, "name", source) {
            Some(name) => {
                let path: Option<String> = find_field_text(rows, i, "path", source);
                push_named(rows, i, source, name, path, RefType::Import, refs);
                return ;
            },
            None => {},
        }
    }
    assert(text::views(refs@) + Seq::<ReferenceView>::empty() =~= text::views(refs@));
}

/// Appends the references of the import clause at row `i`.
pub fn extract_import_names(
    rows: &Vec<SyntaxRow>,
    i: usize,
    source: &str,
    style: ImportStyle,
    refs: &mut Vec<Reference>,
)
    requires
        i < rows@.len(),
        syntax::rows_fit(text::views(rows@), source@),
    ensures
        text::views(final(refs)@) == text::views(old(refs)@) + import_names(
            text::views(rows@),
            i as int,
            source@,
            style,
        ),
    decreases rows@.len() - i, 0int,
{
    if check_clause(style, rows[i].kind.as_str()) {
        extract_names_below(rows, i, source, style, refs);
    } else {
        push_leaf(rows, i, source, style, refs);
    }
}

/// Appends the references of the children of row `i`.
fn extract_names_below(
    rows: &Vec<SyntaxRow>,
    i: usize,
    source: &str,
    style: ImportStyle,
    refs: &mut Vec<Reference>,
)
    requires
        i < rows@.len(),
        syntax::rows_fit(text::views(rows@), source@),
    ensures
        text::views(final(refs)@) == text::views(old(refs)@) + import_names_below(
            text::views(rows@),
            i as int,
            i + 1,
            source@,
            style,
        ),
    decreases rows@.len() - i - 1, 1int,
{
    let ghost table = text::views(rows@);
    let ghost start = text::views(refs@);
    let ghost wanted = import_names_below(table, i as int, i + 1, source@, style);
    let n: usize = rows.len();
    let depth: usize = rows[i].depth;
    let mut j: usize = i + 1;
    assert(start + wanted =~= start + wanted);
    while j < n && rows[j].depth > depth
        invariant
            i < j <= n == rows@.len(),
            depth == rows@[i as int].depth,
            table == text::views(rows@),
            syntax::rows_fit(table, source@),
            text::views(refs@) + import_names_below(table, i as int, j as int, source@, style)
                == start + wanted,
        decreases n - j,
    {
        let ghost before = text::views(refs@);
        let ghost rest = import_names_below(table, i as int, j + 1, source@, style);
        if rows[j].depth - 1 == depth {
            extract_import_names(rows, j, source, style, refs);
            assert(text::views(refs@) + rest =~= before + (import_names(
                table,
                j as int,
                source@,
                style,
            ) + rest));
        }
        j = j + 1;
    }
    assert(text::views(refs@) + Seq::<ReferenceView>::empty() =~= text::views(refs@));
}

// ---------------------------------------------------------------------------
// Python imports
// ---------------------------------------------------------------------------

/// The reference that a child of a Python import statement makes.
pub open spec fn python_import(rows: Seq<SyntaxRowView>, j: int, source: Seq<char>) -> Seq<
    ReferenceView,
> {
    if rows[j].kind == "dotted_name"@ {
        named_reference(rows, j, syntax::row_text(rows, j, source), None, RefType::Import)
    } else if rows[j].kind == "aliased_import"@ {
        match field_text(rows, j, "name"@, source) {
            Some(name) => named_reference(rows, j, name, None, RefType::Import),
            None => Seq::empty(),
        }
    } else {
        Seq::empty()
    }
}

/// The references of the children of row `i` at or after row `j`.
pub open spec fn python_imports_below(
    rows: Seq<SyntaxRowView>,
    i: int,
    j: int,
    source: Seq<char>,
) -> Seq<ReferenceView>
    decreases rows.len() - j,
{
    if j < 0 || !syntax::is_below(rows, i, j) {
        Seq::empty()
    } else if syntax::is_child(rows, i, j) {
        python_import(rows, j, source) + python_imports_below(rows, i, j + 1, source)
    } else {
        python_imports_below(rows, i, j + 1, source)
    }
}

fn push_python_import(rows: &Vec<SyntaxRow>, j: usize, source: &str, refs: &mut Vec<Reference>)
    requires
        j < rows@.len(),
        syntax::rows_fit(text::views(rows@), source@),
    ensures
        text::views(final(refs)@) == text::views(old(refs)@) + python_import(
            text::views(rows@),
            j as int,
            source@,
        ),
{
    let kind: &str = rows[j].kind.as_str();
    if str_eq(kind, "dotted_name") {
        let name: String = node_text(rows, j, source);
        push_named(rows, j, source, name, None, RefType::Import, refs);
    } else if str_eq(kind, "aliased_import") {
        match find_field_text(rows, j, "name", source) {
            Some(name) => {
                push_named(rows, j, source, name, None, RefType::Import, refs);
            },
            None => {
                assert(text::views(refs@) + Seq::<ReferenceView>::empty() =~= text::views(refs@));
            },
        }
    } else {
        assert(text::views(refs@) + Seq::<ReferenceView>::empty() =~= text::views(refs@));
    }
}

fn extract_python_imports(rows: &Vec<SyntaxRow>, i: usize, source: &str, refs: &mut Vec<Reference>)
    requires
        i < rows@.len(),
        syntax::rows_fit(text::views(rows@), source@),
    ensures
        text::views(final(refs)@) == text::views(old(refs)@) + python_imports_below(
            text::views(rows@),
            i as int,
            i + 1,
            source@,
        ),
{
    let ghost table = text::views(rows@);
    let ghost start = text::views(refs@);
    let ghost wanted = python_imports_below(table, i as int, i + 1, source@);
    let n: usize = rows.len();
    let depth: usize = rows[i].depth;
    let mut j: usize = i + 1;
    while j < n && rows[j].depth > depth
        invariant
            i < j <= n == rows@.len(),
            depth == rows@[i as int].depth,
            table == text::views(rows@),
            syntax::rows_fit(table, source@),
            text::views(refs@) + python_imports_below(table, i as int, j as int, source@) == start
                + wanted,
        decreases n - j,
    {
        let ghost before = text::views(refs@);
        let ghost rest = python_imports_below(table, i as int, j + 1, source@);
        if rows[j].depth - 1 == depth {
            push_python_import(rows, j, source, refs);
            assert(text::views(refs@) + rest =~= before + (python_import(table, j as int, source@)
                + rest));
        }
        j = j + 1;
    }
    assert(text::views(refs@) + Seq::<ReferenceView>::empty() =~= text::views(refs@));
}

// ---------------------------------------------------------------------------
// Go imports
// ---------------------------------------------------------------------------

/// `s` without the double quotes at its start.
pub open spec fn unquote_start(s: Seq<char>) -> Seq<char>
    decreases s.len(),
{
    if s.len() > 0 && s[0] == '"' {
        unquote_start(s.drop_first())
    } else {
        s
    }
}

/// `s` without the double quotes at its end.
pub open spec fn unquote_end(s: Seq<char>) -> Seq<char>
    decreases s.len(),
{
    if s.len() > 0 && s.last() == '"' {
        unquote_end(s.drop_last())
    } else {
        s
    }
}

/// `s` without the double quotes around it.
pub open spec fn unquote(s: Seq<char>) -> Seq<char> {
    unquote_end(unquote_start(s))
}

/// What follows the last slash of `s`.
pub open spec fn last_segment(s: Seq<char>) -> Seq<char> {
    s.skip(strings::after_last(s, '/', s.len() as int))
}

fn unquoted(s: &str) -> (r: String)
    ensures
        r@ == unquote(s@),
{
    let chars: Vec<char> = to_chars(s);
    let n: usize = chars.len();
    let mut a: usize = 0;
    assert(chars@.subrange(0, n as int) =~= s@);
    while a < n && chars[a] == '"'
        invariant
            a <= n == chars@.len(),
            unquote_start(s@) == unquote_start(chars@.subrange(a as int, n as int)),
        decreases n - a,
    {
        assert(chars@.subrange(a as int, n as int).drop_first() =~= chars@.subrange(
            a + 1,
            n as int,
        ));
        a = a + 1;
    }
    let ghost tail = chars@.subrange(a as int, n as int);
    assert(unquote_start(s@) == tail);
    let mut b: usize = n;
    while b > a && chars[b - 1] == '"'
        invariant
            a <= b <= n == chars@.len(),
            unquote_end(tail) == unquote_end(chars@.subrange(a as int, b as int)),
        decreases b - a,
    {
        assert(chars@.subrange(a as int, b as int).drop_last() =~= chars@.subrange(
            a as int,
            b - 1,
        ));
        b = b - 1;
    }
    from_chars(&chars, a, b)
}

/// The reference that a Go import at row `i` makes: the last segment of the
/// imported path, qualified by the path.
pub open spec fn go_import(rows: Seq<SyntaxRowView>, i: int, source: Seq<char>) -> Seq<
    ReferenceView,
> {
    match field_text(rows, i, "path"@, source) {
        Some(path) => named_reference(
            rows,
            i,
            last_segment(unquote(path)),
            Some(unquote(path)),
            RefType::Import,
        ),
        None => Seq::empty(),
    }
}

fn push_go_import(rows: &Vec<SyntaxRow>, i: usize, source: &str, refs: &mut Vec<Reference>)
    requires
        i < rows@.len(),
        syntax::rows_fit(text::views(rows@), source@),
    ensures
        text::views(final(refs)@) == text::views(old(refs)@) + go_import(
            text::views(rows@),
            i as int,
            source@,
        ),
{
    match find_field_text(rows, i, "path", source) {
        Some(path) => {
            let bare: String = unquoted(path.as_str());
            let chars: Vec<char> = to_chars(bare.as_str());
            let start: usize = find_after_last(&chars, '/', chars.len());
            let name: String = from_chars(&chars, start, chars.len());
            assert(name@ =~= last_segment(bare@));
            push_named(rows, i, source, name, Some(bare), RefType::Import, refs);
        },
        None => {
            assert(text::views(refs@) + Seq::<ReferenceView>::empty() =~= text::views(refs@));
        },
    }
}

// ---------------------------------------------------------------------------
// All references of a node
// ---------------------------------------------------------------------------

/// The references that the node at row `i` makes by itself.
pub open spec fn references_of(
    rows: Seq<SyntaxRowView>,
    i: int,
    source: Seq<char>,
    file_type: FileType,
) -> Seq<ReferenceView> {
    let kind = rows[i].kind;
    match file_type {
        FileType::JavaScript | FileType::TypeScript => {
            if kind == "call_expression"@ {
                call_reference(rows, i, source)
            } else if kind == "import_statement"@ {
                import_names_below(rows, i, i + 1, source, ImportStyle::Script)
            } else {
                Seq::empty()
            }
        },
        FileType::Python => {
            if kind == "call"@ {
                call_reference(rows, i, source)
            } else if kind == "import_from_statement"@ || kind == "import_statement"@ {
                python_imports_below(rows, i, i + 1, source)
            } else {
                Seq::empty()
            }
        },
        FileType::Rust => {
            if kind == "call_expression"@ {
                call_reference(rows, i, source)
            } else if kind == "use_declaration"@ {
                import_names_below(rows, i, i + 1, source, ImportStyle::Use)
            } else {
                Seq::empty()
            }
        },
        FileType::Go => {
            if kind == "call_expression"@ {
                call_reference(rows, i, source)
            } else if kind == "import_spec"@ {
                go_import(rows, i, source)
            } else {
                Seq::empty()
            }
        },
        FileType::Markdown | FileType::Other => Seq::empty(),
    }
}

/// Appends the references (calls, imports) that the node at row `i` makes.
pub fn extract_references(
    rows: &Vec<SyntaxRow>,
    i: usize,
    source: &str,
    refs: &mut Vec<Reference>,
    file_type: FileType,
)
    requires
        i < rows@.len(),
        syntax::rows_fit(text::views(rows@), source@),
    ensures
        text::views(final(refs)@) == text::views(old(refs)@) + references_of(
            text::views(rows@),
            i as int,
            source@,
            file_type,
        ),
{
    let kind: &str = rows[i].kind.as_str();
    match file_type {
        FileType::JavaScript | FileType::TypeScript => {
            if str_eq(kind, "call_expression") {
                push_call(rows, i, source, refs);
                return ;
            } else if str_eq(kind, "import_statement") {
                extract_names_below(rows, i, source, ImportStyle::Script, refs);
                return ;
            }
        },
        FileType::Python => {
            if str_eq(kind, "call") {
                push_call(rows, i, source, refs);
                return ;
            } else if str_eq(kind, "import_from_statement") || str_eq(kind, "import_statement") {
                extract_python_imports(rows, i, source, refs);
                return ;
            }
        },
        FileType::Rust => {
            if str_eq(kind, "call_expression") {
                push_call(rows, i, source, refs);
                return ;
            } else if str_eq(kind, "use_declaration") {
                extract_names_below(rows, i, source, ImportStyle::Use, refs);
                return ;
            }
        },
        FileType::Go => {
            if str_eq(kind, "call_expression") {
                push_call(rows, i, source, refs);
                return ;
            } else if str_eq(kind, "import_spec") {
                push_go_import(rows, i, source, refs);
                return ;
            }
        },
        FileType::Markdown | FileType::Other => {},
    }
    assert(text::views(refs@) + Seq::<ReferenceView>::empty() =~= text::views(refs@));
}

} // verus!
