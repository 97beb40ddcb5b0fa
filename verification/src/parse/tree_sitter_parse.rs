//! Node extraction from syntax tables and per-language node classification.

use vstd::prelude::*;
use crate::document::{
    copy_span, DocumentNode, DocumentNodeView, NodeMetadata, NodeMetadataView, NodeType, Reference,
    ReferenceView, Span,
};
use crate::parse::references;
use crate::parse::references::extract_references;
use crate::parse::syntax;
use crate::parse::syntax::{
    find_child_by_field, find_child_by_kind, find_child_text, find_field_text, find_named_child,
    node_text, SyntaxRow, SyntaxRowView,
};
use crate::parse::FileType;
use crate::strings::concat;
use crate::text;
use crate::text::str_eq;

verus! {

broadcast use {vstd::string::group_string_axioms, vstd::seq::group_seq_axioms};

/// What a node hands down to the nodes below it: the symbol that they belong to.
pub struct ParentContext {
    pub name: String,
    pub node_type: Option<NodeType>,
    pub span: Option<Span>,
}

/// The view of a [`ParentContext`].
pub struct ParentContextView {
    pub name: Seq<char>,
    pub node_type: Option<NodeType>,
    pub span: Option<Span>,
}

impl View for ParentContext {
    type V = ParentContextView;

    open spec fn view(&self) -> ParentContextView {
        ParentContextView { name: self.name@, node_type: self.node_type, span: self.span }
    }
}

fn copy_opt_span(span: &Option<Span>) -> (r: Option<Span>)
    ensures
        r == *span,
{
    match span {
        Some(s) => Some(copy_span(s)),
        None => None,
    }
}

impl Clone for ParentContext {
    fn clone(&self) -> (r: ParentContext)
        ensures
            r == *self,
    {
        ParentContext {
            name: self.name.clone(),
            node_type: self.node_type,
            span: copy_opt_span(&self.span),
        }
    }
}

fn copy_context(ctx: &Option<ParentContext>) -> (r: Option<ParentContext>)
    ensures
        r == *ctx,
{
    match ctx {
        Some(c) => Some(c.clone()),
        None => None,
    }
}

/// A text, or the empty text.
pub open spec fn text_or_empty(s: Option<Seq<char>>) -> Seq<char> {
    match s {
        Some(t) => t,
        None => Seq::empty(),
    }
}

fn or_empty(s: Option<String>) -> (r: String)
    ensures
        r@ == text_or_empty(text::opt_view(s)),
{
    match s {
        Some(t) => t,
        None => String::new(),
    }
}

/// The text of the first child of row `i` of the given kind.
pub open spec fn kind_text(
    rows: Seq<SyntaxRowView>,
    i: int,
    kind: Seq<char>,
    source: Seq<char>,
) -> Option<Seq<char>> {
    syntax::opt_text(rows, syntax::child_by_kind(rows, i, kind), source)
}

// ---------------------------------------------------------------------------
// Names
// ---------------------------------------------------------------------------

/// The name of the type that a Rust `impl` at row `i` is for, without its
/// generic arguments.
pub open spec fn impl_type_name(rows: Seq<SyntaxRowView>, i: int, source: Seq<char>) -> Option<
    Seq<char>,
> {
    match syntax::child_by_field(rows, i, "type"@) {
        Some(t) => {
            let inner = references::field_text(rows, t, "type"@, source);
            if rows[t].kind == "generic_type"@ && inner is Some {
                inner
            } else {
                Some(syntax::row_text(rows, t, source))
            }
        },
        None => None,
    }
}

fn extract_impl_type(rows: &Vec<SyntaxRow>, i: usize, source: &str) -> (r: Option<String>)
    requires
        i < rows@.len(),
        syntax::rows_fit(text::views(rows@), source@),
    ensures
        text::opt_view(r) == impl_type_name(text::views(rows@), i as int, source@),
{
    match find_child_by_field(rows, i, "type") {
        Some(t) => {
            if str_eq(rows[t].kind.as_str(), "generic_type") {
                match find_field_text(rows, t, "type", source) {
                    Some(inner) => Some(inner),
                    None => Some(node_text(rows, t, source)),
                }
            } else {
                Some(node_text(rows, t, source))
            }
        },
        None => None,
    }
}

/// The receiver type of a Go method at row `i`, without the pointer.
pub open spec fn go_receiver(rows: Seq<SyntaxRowView>, i: int, source: Seq<char>) -> Option<
    Seq<char>,
> {
    match syntax::child_by_field(rows, i, "receiver"@) {
        Some(receiver) => match syntax::named_child(rows, receiver) {
            Some(param) => match syntax::child_by_field(rows, param, "type"@) {
                Some(t) => if rows[t].kind == "pointer_type"@ {
                    syntax::opt_text(rows, syntax::named_child(rows, t), source)
                } else {
                    Some(syntax::row_text(rows, t, source))
                },
                None => None,
            },
            None => None,
        },
        None => None,
    }
}

/// The receiver type of a Go method declaration.
pub fn extract_go_receiver_type(rows: &Vec<SyntaxRow>, i: usize, source: &str) -> (r: Option<
    String,
>)
    requires
        i < rows@.len(),
        syntax::rows_fit(text::views(rows@), source@),
    ensures
        text::opt_view(r) == go_receiver(text::views(rows@), i as int, source@),
{
    let receiver: usize = match find_child_by_field(rows, i, "receiver") {
        Some(receiver) => receiver,
        None => {
            return None;
        },
    };
    let param: usize = match find_named_child(rows, receiver) {
        Some(param) => param,
        None => {
            return None;
        },
    };
    match find_child_by_field(rows, param, "type") {
        Some(t) => {
            if str_eq(rows[t].kind.as_str(), "pointer_type") {
                match find_named_child(rows, t) {
                    Some(inner) => Some(node_text(rows, inner, source)),
                    None => None,
                }
            } else {
                Some(node_text(rows, t, source))
            }
        },
        None => None,
    }
}

/// The text of the first child of the given kind, else that under the field
/// `name`.
pub open spec fn kind_or_name(
    rows: Seq<SyntaxRowView>,
    i: int,
    kind: Seq<char>,
    source: Seq<char>,
) -> Option<Seq<char>> {
    references::or_text(
        kind_text(rows, i, kind, source),
        references::field_text(rows, i, "name"@, source),
    )
}

fn find_kind_or_name(rows: &Vec<SyntaxRow>, i: usize, kind: &str, source: &str) -> (r: Option<
    String,
>)
    requires
        i < rows@.len(),
        syntax::rows_fit(text::views(rows@), source@),
    ensures
        text::opt_view(r) == kind_or_name(text::views(rows@), i as int, kind@, source@),
{
    match find_child_text(rows, i, kind, source) {
        Some(name) => Some(name),
        None => find_field_text(rows, i, "name", source),
    }
}

// ---------------------------------------------------------------------------
// Parent contexts
// ---------------------------------------------------------------------------

/// The context that the node at row `i` sets up for the nodes below it.
pub open spec fn own_context(
    rows: Seq<SyntaxRowView>,
    i: int,
    source: Seq<char>,
    file_type: FileType,
) -> Option<ParentContextView> {
    let kind = rows[i].kind;
    let found = match file_type {
        FileType::Rust => {
            if kind == "impl_item"@ {
                (impl_type_name(rows, i, source), NodeType::Struct)
            } else if kind == "trait_item"@ {
                (references::field_text(rows, i, "name"@, source), NodeType::Class)
            } else {
                (None, NodeType::Class)
            }
        },
        FileType::Python => {
            if kind == "class_definition"@ {
                (kind_text(rows, i, "identifier"@, source), NodeType::Class)
            } else {
                (None, NodeType::Class)
            }
        },
        FileType::JavaScript | FileType::TypeScript => {
            if kind == "class_declaration"@ || kind == "class"@ {
                (kind_or_name(rows, i, "identifier"@, source), NodeType::Class)
            } else {
                (None, NodeType::Class)
            }
        },
        _ => (None, NodeType::Class),
    };
    match found.0 {
        Some(name) => Some(
            ParentContextView {
                name,
                node_type: Some(found.1),
                span: Some(rows[i].start_byte..rows[i].end_byte),
            },
        ),
        None => None,
    }
}

/// The context that the node at row `i` sets up for the nodes below it.
pub fn determine_parent_context(
    rows: &Vec<SyntaxRow>,
    i: usize,
    source: &str,
    file_type: FileType,
) -> (r: Option<ParentContext>)
    requires
        i < rows@.len(),
        syntax::rows_fit(text::views(rows@), source@),
    ensures
        text::opt_view(r) == own_context(text::views(rows@), i as int, source@, file_type),
{
    let kind: &str = rows[i].kind.as_str();
    let mut node_type: NodeType = NodeType::Class;
    let mut name: Option<String> = None;
    match file_type {
        FileType::Rust => {
            if str_eq(kind, "impl_item") {
                node_type = NodeType::Struct;
                name = extract_impl_type(rows, i, source);
            } else if str_eq(kind, "trait_item") {
                name = find_field_text(rows, i, "name", source);
            }
        },
        FileType::Python => {
            if str_eq(kind, "class_definition") {
                name = find_child_text(rows, i, "identifier", source);
            }
        },
        FileType::JavaScript | FileType::TypeScript => {
            if str_eq(kind, "class_declaration") || str_eq(kind, "class") {
                name = find_kind_or_name(rows, i, "identifier", source);
            }
        },
        _ => {},
    }
    match name {
        Some(name) => Some(
            ParentContext {
                name,
                node_type: Some(node_type),
                span: Some(rows[i].start_byte..rows[i].end_byte),
            },
        ),
        None => None,
    }
}

/// The nearest row before row `i` that has fewer ancestors: the parent.
pub open spec fn parent_from(rows: Seq<SyntaxRowView>, i: int, j: int) -> Option<int>
    decreases j + 1,
{
    if j < 0 {
        None
    } else if rows[j].depth < rows[i].depth {
        Some(j)
    } else {
        parent_from(rows, i, j - 1)
    }
}

/// The parent of row `i`.
pub open spec fn parent_of(rows: Seq<SyntaxRowView>, i: int) -> Option<int> {
    parent_from(rows, i, i - 1)
}

pub proof fn lemma_parent_from(rows: Seq<SyntaxRowView>, i: int, j: int)
    requires
        -1 <= j < i,
    ensures
        match parent_from(rows, i, j) {
            Some(p) => 0 <= p <= j && rows[p].depth < rows[i].depth && forall|k: int|
                p < k <= j ==> (#[trigger] rows[k]).depth >= rows[i].depth,
            None => forall|k: int| 0 <= k <= j ==> (#[trigger] rows[k]).depth >= rows[i].depth,
        },
    decreases j + 1,
{
    if j >= 0 && rows[j].depth >= rows[i].depth {
        lemma_parent_from(rows, i, j - 1);
    }
}

/// A row with at least as many ancestors as row `i` and its parent bound the
/// search for the parent of row `i`.
proof fn lemma_parent_skip(rows: Seq<SyntaxRowView>, i: int, j: int)
    requires
        0 <= j < i,
        rows[j].depth >= rows[i].depth,
    ensures
        parent_from(rows, i, j) == match parent_of(rows, j) {
            Some(p) => parent_from(rows, i, p),
            None => None,
        },
{
    lemma_parent_from(rows, j, j - 1);
    let low = match parent_of(rows, j) {
        Some(p) => p,
        None => -1,
    };
    lemma_parent_run(rows, i, j, low);
}

proof fn lemma_parent_run(rows: Seq<SyntaxRowView>, i: int, j: int, low: int)
    requires
        -1 <= low <= j < i,
        forall|k: int| low < k <= j ==> (#[trigger] rows[k]).depth >= rows[i].depth,
    ensures
        parent_from(rows, i, j) == parent_from(rows, i, low),
    decreases j - low,
{
    if low < j {
        assert(rows[j].depth >= rows[i].depth);
        lemma_parent_run(rows, i, j - 1, low);
    }
}

/// The context of the node at row `i`: that which its nearest ancestor that
/// sets one up sets up.
pub open spec fn context_of(
    rows: Seq<SyntaxRowView>,
    i: int,
    source: Seq<char>,
    file_type: FileType,
) -> Option<ParentContextView>
    decreases i, 0int,
    via context_of_decreases
{
    match parent_of(rows, i) {
        Some(p) => handed_down(rows, p, source, file_type),
        None => None,
    }
}

/// The context of the children of the node at row `p`.
pub open spec fn handed_down(
    rows: Seq<SyntaxRowView>,
    p: int,
    source: Seq<char>,
    file_type: FileType,
) -> Option<ParentContextView>
    decreases p, 1int,
{
    match own_context(rows, p, source, file_type) {
        Some(c) => Some(c),
        None => context_of(rows, p, source, file_type),
    }
}

#[via_fn]
proof fn context_of_decreases(
    rows: Seq<SyntaxRowView>,
    i: int,
    source: Seq<char>,
    file_type: FileType,
) {
    if i >= 0 {
        lemma_parent_from(rows, i, i - 1);
    }
}

// ---------------------------------------------------------------------------
// Per-language node classifiers
// ---------------------------------------------------------------------------

/// What a Rust node is indexed as.
pub open spec fn rust_node(rows: Seq<SyntaxRowView>, i: int, source: Seq<char>) -> Option<
    NodeMetadataView,
> {
    let kind = rows[i].kind;
    if kind == "function_item"@ {
        Some(
            NodeMetadataView::Function {
                name: text_or_empty(
                    references::or_text(
                        kind_text(rows, i, "identifier"@, source),
                        kind_text(rows, i, "name"@, source),
                    ),
                ),
                signature: kind_text(rows, i, "parameters"@, source),
            },
        )
    } else if kind == "impl_item"@ {
        Some(NodeMetadataView::Struct { name: text_or_empty(impl_type_name(rows, i, source)) })
    } else if kind == "struct_item"@ {
        Some(
            NodeMetadataView::Struct {
                name: text_or_empty(references::field_text(rows, i, "name"@, source)),
            },
        )
    } else if kind == "trait_item"@ {
        Some(
            NodeMetadataView::Class {
                name: text_or_empty(references::field_text(rows, i, "name"@, source)),
            },
        )
    } else if kind == "mod_item"@ {
        Some(
            NodeMetadataView::Section {
                heading: "mod "@ + text_or_empty(kind_text(rows, i, "identifier"@, source)),
                level: 1,
            },
        )
    } else {
        None
    }
}

/// What a Python node is indexed as.
pub open spec fn python_node(
    rows: Seq<SyntaxRowView>,
    i: int,
    source: Seq<char>,
    parent: Option<ParentContextView>,
) -> Option<NodeMetadataView> {
    let kind = rows[i].kind;
    let name = text_or_empty(kind_text(rows, i, "identifier"@, source));
    if kind == "function_definition"@ {
        match parent {
            Some(p) => Some(NodeMetadataView::Method { name, class_name: Some(p.name) }),
            None => Some(
                NodeMetadataView::Function {
                    name,
                    signature: kind_text(rows, i, "parameters"@, source),
                },
            ),
        }
    } else if kind == "class_definition"@ {
        Some(NodeMetadataView::Class { name })
    } else {
        None
    }
}

/// What a JavaScript or TypeScript node is indexed as.
pub open spec fn script_node(
    rows: Seq<SyntaxRowView>,
    i: int,
    source: Seq<char>,
    parent: Option<ParentContextView>,
) -> Option<NodeMetadataView> {
    let kind = rows[i].kind;
    if kind == "function_declaration"@ || kind == "arrow_function"@ || kind == "function"@ {
        Some(
            NodeMetadataView::Function {
                name: match kind_or_name(rows, i, "identifier"@, source) {
                    Some(name) => name,
                    None => "<anonymous>"@,
                },
                signature: kind_text(rows, i, "formal_parameters"@, source),
            },
        )
    } else if kind == "class_declaration"@ || kind == "class"@ {
        Some(
            NodeMetadataView::Class {
                name: text_or_empty(kind_or_name(rows, i, "identifier"@, source)),
            },
        )
    } else if kind == "method_definition"@ {
        Some(
            NodeMetadataView::Method {
                name: text_or_empty(references::field_text(rows, i, "name"@, source)),
                class_name: match parent {
                    Some(p) => Some(p.name),
                    None => None,
                },
            },
        )
    } else if kind == "interface_declaration"@ || kind == "type_alias_declaration"@ {
        Some(
            NodeMetadataView::Struct {
                name: text_or_empty(kind_or_name(rows, i, "type_identifier"@, source)),
            },
        )
    } else {
        None
    }
}

/// What a Go node is indexed as.
pub open spec fn go_node(rows: Seq<SyntaxRowView>, i: int, source: Seq<char>) -> Option<
    NodeMetadataView,
> {
    let kind = rows[i].kind;
    if kind == "function_declaration"@ {
        Some(
            NodeMetadataView::Function {
                name: text_or_empty(kind_text(rows, i, "identifier"@, source)),
                signature: kind_text(rows, i, "parameter_list"@, source),
            },
        )
    } else if kind == "method_declaration"@ {
        Some(
            NodeMetadataView::Method {
                name: text_or_empty(references::field_text(rows, i, "name"@, source)),
                class_name: go_receiver(rows, i, source),
            },
        )
    } else if kind == "type_declaration"@ {
        match syntax::child_by_kind(rows, i, "type_spec"@) {
            Some(t) => Some(
                NodeMetadataView::Struct {
                    name: text_or_empty(kind_text(rows, t, "type_identifier"@, source)),
                },
            ),
            None => None,
        }
    } else {
        None
    }
}

fn classify_rust_node(rows: &Vec<SyntaxRow>, i: usize, source: &str) -> (r: Option<
    (NodeType, NodeMetadata),
>)
    requires
        i < rows@.len(),
        syntax::rows_fit(text::views(rows@), source@),
    ensures
        classified(r, rust_node(text::views(rows@), i as int, source@)),
{
    let kind: &str = rows[i].kind.as_str();
    if str_eq(kind, "function_item") {
        let name: Option<String> = match find_child_text(rows, i, "identifier", source) {
            Some(name) => Some(name),
            None => find_child_text(rows, i, "name", source),
        };
        let signature: Option<String> = find_child_text(rows, i, "parameters", source);
        Some((NodeType::Function, NodeMetadata::Function { name: or_empty(name), signature }))
    } else if str_eq(kind, "impl_item") {
        let name: String = or_empty(extract_impl_type(rows, i, source));
        Some((NodeType::Struct, NodeMetadata::Struct { name }))
    } else if str_eq(kind, "struct_item") {
        let name: String = or_empty(find_field_text(rows, i, "name", source));
        Some((NodeType::Struct, NodeMetadata::Struct { name }))
    } else if str_eq(kind, "trait_item") {
        let name: String = or_empty(find_field_text(rows, i, "name", source));
        Some((NodeType::Class, NodeMetadata::Class { name }))
    } else if str_eq(kind, "mod_item") {
        let name: String = or_empty(find_child_text(rows, i, "identifier", source));
        let heading: String = concat("mod ", name.as_str());
        Some((NodeType::Section, NodeMetadata::Section { heading, level: 1 }))
    } else {
        None
    }
}

fn classify_python_node(
    rows: &Vec<SyntaxRow>,
    i: usize,
    source: &str,
    parent_ctx: &Option<ParentContext>,
) -> (r: Option<(NodeType, NodeMetadata)>)
    requires
        i < rows@.len(),
        syntax::rows_fit(text::views(rows@), source@),
    ensures
        classified(
            r,
            python_node(text::views(rows@), i as int, source@, text::opt_view(*parent_ctx)),
        ),
{
    let kind: &str = rows[i].kind.as_str();
    if str_eq(kind, "function_definition") {
        let name: String = or_empty(find_child_text(rows, i, "identifier", source));
        match parent_ctx {
            Some(p) => Some(
                (NodeType::Method, NodeMetadata::Method { name, class_name: Some(p.name.clone()) }),
            ),
            None => {
                let signature: Option<String> = find_child_text(rows, i, "parameters", source);
                Some((NodeType::Function, NodeMetadata::Function { name, signature }))
            },
        }
    } else if str_eq(kind, "class_definition") {
        let name: String = or_empty(find_child_text(rows, i, "identifier", source));
        Some((NodeType::Class, NodeMetadata::Class { name }))
    } else {
        None
    }
}

fn classify_js_ts_node(
    rows: &Vec<SyntaxRow>,
    i: usize,
    source: &str,
    parent_ctx: &Option<ParentContext>,
) -> (r: Option<(NodeType, NodeMetadata)>)
    requires
        i < rows@.len(),
        syntax::rows_fit(text::views(rows@), source@),
    ensures
        classified(
            r,
            script_node(text::views(rows@), i as int, source@, text::opt_view(*parent_ctx)),
        ),
{
    let kind: &str = rows[i].kind.as_str();
    if str_eq(kind, "function_declaration") || str_eq(kind, "arrow_function") || str_eq(
        kind,
        "function",
    ) {
        let name: String = match find_kind_or_name(rows, i, "identifier", source) {
            Some(name) => name,
            None => "<anonymous>".to_owned(),
        };
        let signature: Option<String> = find_child_text(rows, i, "formal_parameters", source);
        Some((NodeType::Function, NodeMetadata::Function { name, signature }))
    } else if str_eq(kind, "class_declaration") || str_eq(kind, "class") {
        let name: String = or_empty(find_kind_or_name(rows, i, "identifier", source));
        Some((NodeType::Class, NodeMetadata::Class { name }))
    } else if str_eq(kind, "method_definition") {
        let name: String = or_empty(find_field_text(rows, i, "name", source));
        let class_name: Option<String> = match parent_ctx {
            Some(p) => Some(p.name.clone()),
            None => None,
        };
        Some((NodeType::Method, NodeMetadata::Method { name, class_name }))
    } else if str_eq(kind, "interface_declaration") || str_eq(kind, "type_alias_declaration") {
        let name: String = or_empty(find_kind_or_name(rows, i, "type_identifier", source));
        Some((NodeType::Struct, NodeMetadata::Struct { name }))
    } else {
        None
    }
}

fn classify_go_node(rows: &Vec<SyntaxRow>, i: usize, source: &str) -> (r: Option<
    (NodeType, NodeMetadata),
>)
    requires
        i < rows@.len(),
        syntax::rows_fit(text::views(rows@), source@),
    ensures
        classified(r, go_node(text::views(rows@), i as int, source@)),
{
    let kind: &str = rows[i].kind.as_str();
    if str_eq(kind, "function_declaration") {
        let name: String = or_empty(find_child_text(rows, i, "identifier", source));
        let signature: Option<String> = find_child_text(rows, i, "parameter_list", source);
        Some((NodeType::Function, NodeMetadata::Function { name, signature }))
    } else if str_eq(kind, "method_declaration") {
        let name: String = or_empty(find_field_text(rows, i, "name", source));
        let class_name: Option<String> = extract_go_receiver_type(rows, i, source);
        Some((NodeType::Method, NodeMetadata::Method { name, class_name }))
    } else if str_eq(kind, "type_declaration") {
        match find_child_by_kind(rows, i, "type_spec") {
            Some(t) => {
                let name: String = or_empty(find_child_text(rows, t, "type_identifier", source));
                Some((NodeType::Struct, NodeMetadata::Struct { name }))
            },
            None => None,
        }
    } else {
        None
    }
}

/// Whether a classification is the expected metadata with its node type.
pub open spec fn classified(
    r: Option<(NodeType, NodeMetadata)>,
    expected: Option<NodeMetadataView>,
) -> bool {
    match r {
        Some(found) => expected == Some(found.1@) && found.0 == found.1@.node_type(),
        None => expected is None,
    }
}

/// What the node at row `i` is indexed as.
pub open spec fn node_metadata(
    rows: Seq<SyntaxRowView>,
    i: int,
    source: Seq<char>,
    file_type: FileType,
) -> Option<NodeMetadataView> {
    let parent = context_of(rows, i, source, file_type);
    match file_type {
        FileType::Rust => rust_node(rows, i, source),
        FileType::Python => python_node(rows, i, source, parent),
        FileType::JavaScript | FileType::TypeScript => script_node(rows, i, source, parent),
        FileType::Go => go_node(rows, i, source),
        FileType::Markdown | FileType::Other => None,
    }
}

/// The context that the indexed node names as its parent: for a Go method the
/// receiver type.
pub open spec fn effective_parent(
    rows: Seq<SyntaxRowView>,
    i: int,
    source: Seq<char>,
    file_type: FileType,
) -> Option<ParentContextView> {
    if file_type == FileType::Go && rows[i].kind == "method_declaration"@ {
        match go_receiver(rows, i, source) {
            Some(name) => Some(ParentContextView { name, node_type: None, span: None }),
            None => None,
        }
    } else {
        context_of(rows, i, source, file_type)
    }
}

/// The node to index for row `i`, if any.
pub open spec fn document_node(
    rows: Seq<SyntaxRowView>,
    i: int,
    source: Seq<char>,
    file_type: FileType,
) -> Seq<DocumentNodeView> {
    let parent = effective_parent(rows, i, source, file_type);
    match node_metadata(rows, i, source, file_type) {
        Some(metadata) => seq![
            DocumentNodeView {
                node_type: metadata.node_type(),
                span: rows[i].start_byte..rows[i].end_byte,
                line_range: ((rows[i].start_row + 1) as usize, (rows[i].end_row + 1) as usize),
                metadata,
                parent_name: match parent {
                    Some(p) => Some(p.name),
                    None => None,
                },
                parent_handle_id: None,
                parent_node_type: match parent {
                    Some(p) => p.node_type,
                    None => None,
                },
                parent_span: match parent {
                    Some(p) => p.span,
                    None => None,
                },
            },
        ],
        None => Seq::empty(),
    }
}

/// The nodes to index for the first `n` rows.
pub open spec fn document_nodes(
    rows: Seq<SyntaxRowView>,
    n: nat,
    source: Seq<char>,
    file_type: FileType,
) -> Seq<DocumentNodeView>
    decreases n,
{
    if n == 0 {
        Seq::empty()
    } else {
        document_nodes(rows, (n - 1) as nat, source, file_type) + document_node(
            rows,
            n - 1,
            source,
            file_type,
        )
    }
}

/// The references of the first `n` rows.
pub open spec fn all_references(
    rows: Seq<SyntaxRowView>,
    n: nat,
    source: Seq<char>,
    file_type: FileType,
) -> Seq<ReferenceView>
    decreases n,
{
    if n == 0 {
        Seq::empty()
    } else {
        all_references(rows, (n - 1) as nat, source, file_type) + references::references_of(
            rows,
            n - 1,
            source,
            file_type,
        )
    }
}

/// Appends the node to index for row `i`, if any.
fn push_node(
    rows: &Vec<SyntaxRow>,
    i: usize,
    source: &str,
    nodes: &mut Vec<DocumentNode>,
    file_type: FileType,
    parent_ctx: &Option<ParentContext>,
)
    requires
        i < rows@.len(),
        syntax::rows_fit(text::views(rows@), source@),
        text::opt_view(*parent_ctx) == context_of(
            text::views(rows@),
            i as int,
            source@,
            file_type,
        ),
    ensures
        text::views(final(nodes)@) == text::views(old(nodes)@) + document_node(
            text::views(rows@),
            i as int,
            source@,
            file_type,
        ),
{
    let ghost table = text::views(rows@);
    let info: Option<(NodeType, NodeMetadata)> = match file_type {
        FileType::Rust => classify_rust_node(rows, i, source),
        FileType::Python => classify_python_node(rows, i, source, parent_ctx),
        FileType::JavaScript | FileType::TypeScript => {
            classify_js_ts_node(rows, i, source, parent_ctx)
        },
        FileType::Go => classify_go_node(rows, i, source),
        _ => None,
    };
    match info {
        Some((node_type, metadata)) => {
            assert(syntax::row_fits(table[i as int], source@));
            let parent: Option<ParentContext> = if file_type == FileType::Go && str_eq(
                rows[i].kind.as_str(),
                "method_declaration",
            ) {
                match extract_go_receiver_type(rows, i, source) {
                    Some(name) => Some(ParentContext { name, node_type: None, span: None }),
                    None => None,
                }
            } else {
                copy_context(parent_ctx)
            };
            let row: &SyntaxRow = &rows[i];
            let (parent_name, parent_node_type, parent_span): (
                Option<String>,
                Option<NodeType>,
                Option<Span>,
            ) = match parent {
                Some(p) => (Some(p.name), p.node_type, p.span),
                None => (None, None, None),
            };
            let node: DocumentNode = DocumentNode {
                node_type,
                span: row.start_byte..row.end_byte,
                line_range: (row.start_row + 1, row.end_row + 1),
                metadata,
                parent_name,
                parent_handle_id: None,
                parent_node_type,
                parent_span,
            };
            proof {
                text::lemma_views_push(nodes@, node);
                assert(text::views(nodes@).push(node@) =~= text::views(nodes@) + document_node(
                    table,
                    i as int,
                    source@,
                    file_type,
                ));
            }
            nodes.push(node);
        },
        None => {
            assert(text::views(nodes@) + Seq::<DocumentNodeView>::empty() =~= text::views(nodes@));
        },
    }
}

/// The row that is the parent of row `i`, given the parents of the rows before.
fn find_parent(rows: &Vec<SyntaxRow>, parents: &Vec<Option<usize>>, i: usize) -> (r: Option<usize>)
    requires
        i < rows@.len(),
        parents@.len() == i,
        forall|k: int|
            0 <= k < i ==> syntax::opt_int(#[trigger] parents@[k]) == parent_of(
                text::views(rows@),
                k,
            ),
    ensures
        syntax::opt_int(r) == parent_of(text::views(rows@), i as int),
        r is Some ==> r->0 < i,
{
    let ghost table = text::views(rows@);
    if i == 0 {
        return None;
    }
    let mut j: usize = i - 1;
    while rows[j].depth >= rows[i].depth
        invariant
            j < i < rows@.len(),
            parents@.len() == i,
            table == text::views(rows@),
            forall|k: int|
                0 <= k < i ==> syntax::opt_int(#[trigger] parents@[k]) == parent_of(table, k),
            parent_of(table, i as int) == parent_from(table, i as int, j as int),
        decreases j,
    {
        proof {
            lemma_parent_skip(table, i as int, j as int);
            lemma_parent_from(table, j as int, j - 1);
            assert(syntax::opt_int(parents@[j as int]) == parent_of(table, j as int));
        }
        match parents[j] {
            Some(p) => {
                j = p;
            },
            None => {
                return None;
            },
        }
    }
    Some(j)
}

/// The nodes to index of a syntax table and the references in it, both in the
/// order of the rows.
pub fn extract_tree_sitter_nodes(rows: &Vec<SyntaxRow>, source: &str, file_type: FileType) -> (r: (
    Vec<DocumentNode>,
    Vec<Reference>,
))
    requires
        syntax::rows_fit(text::views(rows@), source@),
    ensures
        text::views(r.0@) == document_nodes(text::views(rows@), rows@.len(), source@, file_type),
        text::views(r.1@) == all_references(text::views(rows@), rows@.len(), source@, file_type),
{
    let ghost table = text::views(rows@);
    let mut nodes: Vec<DocumentNode> = Vec::new();
    let mut refs: Vec<Reference> = Vec::new();
    let mut parents: Vec<Option<usize>> = Vec::new();
    let mut handed: Vec<Option<ParentContext>> = Vec::new();
    let mut i: usize = 0;
    assert(text::views(nodes@) =~= document_nodes(table, 0, source@, file_type));
    assert(text::views(refs@) =~= all_references(table, 0, source@, file_type));
    while i < rows.len()
        invariant
            i <= rows@.len(),
            table == text::views(rows@),
            syntax::rows_fit(table, source@),
            parents@.len() == i,
            handed@.len() == i,
            forall|k: int|
                0 <= k < i ==> syntax::opt_int(#[trigger] parents@[k]) == parent_of(table, k),
            forall|k: int|
                0 <= k < i ==> text::opt_view(#[trigger] handed@[k]) == handed_down(
                    table,
                    k,
                    source@,
                    file_type,
                ),
            text::views(nodes@) == document_nodes(table, i as nat, source@, file_type),
            text::views(refs@) == all_references(table, i as nat, source@, file_type),
        decreases rows@.len() - i,
    {
        extract_references(rows, i, source, &mut refs, file_type);
        let parent: Option<usize> = find_parent(rows, &parents, i);
        let context: Option<ParentContext> = match parent {
            Some(p) => copy_context(&handed[p]),
            None => None,
        };
        push_node(rows, i, source, &mut nodes, file_type, &context);
        let own: Option<ParentContext> = determine_parent_context(rows, i, source, file_type);
        let below: Option<ParentContext> = match own {
            Some(c) => Some(c),
            None => context,
        };
        parents.push(parent);
        handed.push(below);
        i = i + 1;
    }
    (nodes, refs)
}

} // verus!
