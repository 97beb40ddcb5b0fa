//! What the indexed nodes of a source file are: one for each definition of the
//! file, in the order of the file, with the name written in the definition and
//! the nearest definition around it that other definitions belong to.

use vstd::prelude::*;
use crate::document::{DocumentNodeView, NodeMetadataView, NodeType};
use crate::parse::syntax;
use crate::parse::syntax::SyntaxRowView;
use crate::parse::tree;
use crate::parse::tree_sitter_parse;
use crate::parse::FileType;

verus! {

broadcast use {vstd::string::group_string_axioms, vstd::seq::group_seq_axioms};

/// What a row of a kind defines. A Python function defined in a class is a method.
pub open spec fn symbol_type(file_type: FileType, kind: Seq<char>, in_class: bool) -> Option<
    NodeType,
> {
    match file_type {
        FileType::Rust => if kind == "function_item"@ {
            Some(NodeType::Function)
        } else if kind == "impl_item"@ || kind == "struct_item"@ {
            Some(NodeType::Struct)
        } else if kind == "trait_item"@ {
            Some(NodeType::Class)
        } else if kind == "mod_item"@ {
            Some(NodeType::Section)
        } else {
            None
        },
        FileType::Python => if kind == "class_definition"@ {
            Some(NodeType::Class)
        } else if kind == "function_definition"@ && in_class {
            Some(NodeType::Method)
        } else if kind == "function_definition"@ {
            Some(NodeType::Function)
        } else {
            None
        },
        FileType::JavaScript | FileType::TypeScript => if kind == "function_declaration"@ || kind
            == "arrow_function"@ || kind == "function"@ {
            Some(NodeType::Function)
        } else if kind == "class_declaration"@ || kind == "class"@ {
            Some(NodeType::Class)
        } else if kind == "method_definition"@ {
            Some(NodeType::Method)
        } else if kind == "interface_declaration"@ || kind == "type_alias_declaration"@ {
            Some(NodeType::Struct)
        } else {
            None
        },
        FileType::Go => if kind == "function_declaration"@ {
            Some(NodeType::Function)
        } else if kind == "method_declaration"@ {
            Some(NodeType::Method)
        } else if kind == "type_declaration"@ {
            Some(NodeType::Struct)
        } else {
            None
        },
        FileType::Markdown | FileType::Other => None,
    }
}

/// Whether row `i` defines something. A Go type declaration does where a type
/// specification stands in it.
pub open spec fn is_definition(file_type: FileType, rows: Seq<SyntaxRowView>, i: int) -> bool {
    &&& symbol_type(file_type, rows[i].kind, false) is Some
    &&& rows[i].kind == "type_declaration"@ && file_type == FileType::Go ==> !tree::lacks_kind(
        rows,
        i,
        "type_spec"@,
    )
}

/// Whether row `c` is the first child of row `i` of a kind, or the first under the
/// field `name` where no child is of that kind.
pub open spec fn is_kind_or_name(
    rows: Seq<SyntaxRowView>,
    i: int,
    kind: Seq<char>,
    c: int,
) -> bool {
    ||| tree::is_first_kind(rows, i, kind, c)
    ||| tree::lacks_kind(rows, i, kind) && tree::is_first_field(rows, i, "name"@, c)
}

/// Whether row `c` names what row `i` defines. Row `via` lies between them where
/// the name is not a child of row `i`, and is row `i` elsewhere.
pub open spec fn names(
    file_type: FileType,
    rows: Seq<SyntaxRowView>,
    i: int,
    via: int,
    c: int,
) -> bool {
    let kind = rows[i].kind;
    match file_type {
        FileType::Rust => if kind == "impl_item"@ {
            &&& tree::is_first_field(rows, i, "type"@, via)
            &&& if rows[via].kind == "generic_type"@ && !tree::lacks_field(rows, via, "type"@) {
                tree::is_first_field(rows, via, "type"@, c)
            } else {
                c == via
            }
        } else if kind == "function_item"@ {
            via == i && (tree::is_first_kind(rows, i, "identifier"@, c) || tree::lacks_kind(
                rows,
                i,
                "identifier"@,
            ) && tree::is_first_kind(rows, i, "name"@, c))
        } else if kind == "mod_item"@ {
            via == i && tree::is_first_kind(rows, i, "identifier"@, c)
        } else {
            via == i && tree::is_first_field(rows, i, "name"@, c)
        },
        FileType::Python => via == i && tree::is_first_kind(rows, i, "identifier"@, c),
        FileType::JavaScript | FileType::TypeScript => if kind == "method_definition"@ {
            via == i && tree::is_first_field(rows, i, "name"@, c)
        } else if kind == "interface_declaration"@ || kind == "type_alias_declaration"@ {
            via == i && is_kind_or_name(rows, i, "type_identifier"@, c)
        } else {
            via == i && is_kind_or_name(rows, i, "identifier"@, c)
        },
        FileType::Go => if kind == "type_declaration"@ {
            tree::is_first_kind(rows, i, "type_spec"@, via) && tree::is_first_kind(
                rows,
                via,
                "type_identifier"@,
                c,
            )
        } else if kind == "method_declaration"@ {
            via == i && tree::is_first_field(rows, i, "name"@, c)
        } else {
            via == i && tree::is_first_kind(rows, i, "identifier"@, c)
        },
        FileType::Markdown | FileType::Other => false,
    }
}

/// Whether no row names what row `i` defines.
pub open spec fn is_unnamed(file_type: FileType, rows: Seq<SyntaxRowView>, i: int) -> bool {
    forall|via: int, c: int| !#[trigger] names(file_type, rows, i, via, c)
}

/// Whether the definitions below row `a` belong to it: a named class, or a named
/// `impl` or `trait` of Rust.
pub open spec fn is_container(file_type: FileType, rows: Seq<SyntaxRowView>, a: int) -> bool {
    let kind = rows[a].kind;
    &&& !is_unnamed(file_type, rows, a)
    &&& match file_type {
        FileType::Rust => kind == "impl_item"@ || kind == "trait_item"@,
        FileType::Python => kind == "class_definition"@,
        FileType::JavaScript | FileType::TypeScript => kind == "class_declaration"@ || kind
            == "class"@,
        FileType::Go | FileType::Markdown | FileType::Other => false,
    }
}

/// Whether row `a` is a container around row `i`.
pub open spec fn encloses(
    file_type: FileType,
    rows: Seq<SyntaxRowView>,
    a: int,
    i: int,
) -> bool {
    tree::is_under(rows, a, i) && is_container(file_type, rows, a)
}

/// Whether row `a` is the nearest container around row `i`.
pub open spec fn is_nearest(
    file_type: FileType,
    rows: Seq<SyntaxRowView>,
    a: int,
    i: int,
) -> bool {
    &&& encloses(file_type, rows, a, i)
    &&& forall|b: int| #[trigger] encloses(file_type, rows, b, i) ==> b <= a
}

/// Whether there is a container around row `i`.
pub open spec fn in_container(file_type: FileType, rows: Seq<SyntaxRowView>, i: int) -> bool {
    exists|a: int| #[trigger] encloses(file_type, rows, a, i)
}

/// Whether row `c` is the receiver type of the Go method at row `i`, without its
/// pointer: `receiver` is the list it stands in, `param` the parameter, `ty` its
/// type as written.
pub open spec fn is_receiver(
    rows: Seq<SyntaxRowView>,
    i: int,
    receiver: int,
    param: int,
    ty: int,
    c: int,
) -> bool {
    &&& tree::is_first_field(rows, i, "receiver"@, receiver)
    &&& tree::is_first_named(rows, receiver, param)
    &&& tree::is_first_field(rows, param, "type"@, ty)
    &&& if rows[ty].kind == "pointer_type"@ {
        tree::is_first_named(rows, ty, c)
    } else {
        c == ty
    }
}

/// The name in what a node records of its definition.
pub open spec fn recorded_name(metadata: NodeMetadataView) -> Option<Seq<char>> {
    match metadata {
        NodeMetadataView::Section { heading, level } => Some(heading),
        NodeMetadataView::Function { name, signature } => Some(name),
        NodeMetadataView::Class { name } => Some(name),
        NodeMetadataView::Struct { name } => Some(name),
        NodeMetadataView::Method { name, class_name } => Some(name),
        _ => None,
    }
}

/// What stands before the name of a definition in its node.
pub open spec fn prefix(file_type: FileType, kind: Seq<char>) -> Seq<char> {
    if file_type == FileType::Rust && kind == "mod_item"@ {
        "mod "@
    } else {
        Seq::empty()
    }
}

/// The name of a definition that names nothing: that of a function of JavaScript
/// or TypeScript says so.
pub open spec fn no_name(file_type: FileType, kind: Seq<char>) -> Seq<char> {
    if (file_type == FileType::JavaScript || file_type == FileType::TypeScript) && (kind
        == "function_declaration"@ || kind == "arrow_function"@ || kind == "function"@) {
        "<anonymous>"@
    } else {
        Seq::empty()
    }
}

/// The kind of the child that holds the parameters of a function.
pub open spec fn parameters_kind(file_type: FileType) -> Seq<char> {
    match file_type {
        FileType::Rust | FileType::Python => "parameters"@,
        FileType::Go => "parameter_list"@,
        _ => "formal_parameters"@,
    }
}

/// Whether a node stands where row `i` stands and is of the type that the row defines.
pub open spec fn is_placed_at(
    node: DocumentNodeView,
    file_type: FileType,
    rows: Seq<SyntaxRowView>,
    i: int,
) -> bool {
    &&& node.span == (rows[i].start_byte..rows[i].end_byte)
    &&& node.line_range == ((rows[i].start_row + 1) as usize, (rows[i].end_row + 1) as usize)
    &&& Some(node.node_type) == symbol_type(
        file_type,
        rows[i].kind,
        in_container(file_type, rows, i),
    )
    &&& match node.node_type {
        NodeType::Section => node.metadata matches NodeMetadataView::Section { level, .. } && level
            == 1,
        NodeType::Function => node.metadata is Function,
        NodeType::Class => node.metadata is Class,
        NodeType::Struct => node.metadata is Struct,
        NodeType::Method => node.metadata is Method,
        _ => false,
    }
}

/// Whether a node records the name that row `i` defines.
pub open spec fn is_named_for(
    node: DocumentNodeView,
    file_type: FileType,
    rows: Seq<SyntaxRowView>,
    i: int,
    source: Seq<char>,
) -> bool {
    let before = prefix(file_type, rows[i].kind);
    &&& forall|via: int, c: int| #[trigger]
        names(file_type, rows, i, via, c) ==> recorded_name(node.metadata) == Some(
            before + tree::written(rows, c, source),
        )
    &&& is_unnamed(file_type, rows, i) ==> recorded_name(node.metadata) == Some(
        before + no_name(file_type, rows[i].kind),
    )
}

/// Whether a node of a function records the parameters as they are written.
pub open spec fn has_signature(
    node: DocumentNodeView,
    file_type: FileType,
    rows: Seq<SyntaxRowView>,
    i: int,
    source: Seq<char>,
) -> bool {
    node.metadata matches NodeMetadataView::Function { signature, .. } ==> {
        &&& forall|c: int| #[trigger]
            tree::is_first_kind(rows, i, parameters_kind(file_type), c) ==> signature == Some(
                tree::written(rows, c, source),
            )
        &&& tree::lacks_kind(rows, i, parameters_kind(file_type)) ==> signature is None
    }
}

/// Whether a node belongs to the nearest container around row `i`, by its name, its
/// span and its type. A Go method belongs to its receiver type, by name alone.
pub open spec fn belongs(
    node: DocumentNodeView,
    file_type: FileType,
    rows: Seq<SyntaxRowView>,
    i: int,
    source: Seq<char>,
) -> bool {
    &&& node.parent_handle_id is None
    &&& node.metadata matches NodeMetadataView::Method { class_name, .. } ==> class_name
        == node.parent_name
    &&& if file_type == FileType::Go && rows[i].kind == "method_declaration"@ {
        &&& node.parent_span is None && node.parent_node_type is None
        &&& forall|receiver: int, param: int, ty: int, c: int| #[trigger]
            is_receiver(rows, i, receiver, param, ty, c) ==> node.parent_name == Some(
                tree::written(rows, c, source),
            )
        &&& (forall|receiver: int, param: int, ty: int, c: int|
            !#[trigger] is_receiver(rows, i, receiver, param, ty, c)) ==> node.parent_name is None
    } else {
        &&& forall|a: int, via: int, c: int| #[trigger]
            is_nearest(file_type, rows, a, i) && #[trigger] names(file_type, rows, a, via, c)
                ==> node.parent_name == Some(tree::written(rows, c, source))
        &&& forall|a: int| #[trigger]
            is_nearest(file_type, rows, a, i) ==> node.parent_span == Some(
                rows[a].start_byte..rows[a].end_byte,
            ) && node.parent_node_type == Some(
                if rows[a].kind == "impl_item"@ {
                    NodeType::Struct
                } else {
                    NodeType::Class
                },
            )
        &&& !in_container(file_type, rows, i) ==> node.parent_name is None && node.parent_span is None
            && node.parent_node_type is None
    }
}

/// Whether a node is the one to index for what row `i` defines.
pub open spec fn is_symbol(
    node: DocumentNodeView,
    file_type: FileType,
    rows: Seq<SyntaxRowView>,
    i: int,
    source: Seq<char>,
) -> bool {
    &&& is_placed_at(node, file_type, rows, i)
    &&& is_named_for(node, file_type, rows, i, source)
    &&& has_signature(node, file_type, rows, i, source)
    &&& belongs(node, file_type, rows, i, source)
}

proof fn lemma_rust_kinds()
    ensures
        "function_item"@.len() == 13,
        "impl_item"@.len() == 9,
        "struct_item"@.len() == 11,
        "trait_item"@.len() == 10,
        "mod_item"@.len() == 8,
{
    reveal_strlit("function_item");
    reveal_strlit("impl_item");
    reveal_strlit("struct_item");
    reveal_strlit("trait_item");
    reveal_strlit("mod_item");
}

proof fn lemma_python_kinds()
    ensures
        "function_definition"@.len() == 19,
        "class_definition"@.len() == 16,
{
    reveal_strlit("function_definition");
    reveal_strlit("class_definition");
}

proof fn lemma_script_kinds()
    ensures
        "function_declaration"@.len() == 20,
        "arrow_function"@.len() == 14,
        "function"@.len() == 8,
        "class_declaration"@.len() == 17,
        "class"@.len() == 5,
        "method_definition"@.len() == 17,
        "method_definition"@ != "class_declaration"@,
        "interface_declaration"@.len() == 21,
        "type_alias_declaration"@.len() == 22,
        "impl_item"@.len() == 9,
{
    reveal_strlit("function_declaration");
    reveal_strlit("arrow_function");
    reveal_strlit("function");
    reveal_strlit("class_declaration");
    reveal_strlit("class");
    reveal_strlit("method_definition");
    reveal_strlit("interface_declaration");
    reveal_strlit("type_alias_declaration");
    reveal_strlit("impl_item");
    assert("method_definition"@[0] == 'm');
    assert("class_declaration"@[0] == 'c');
}

proof fn lemma_go_kinds()
    ensures
        "function_declaration"@.len() == 20,
        "method_declaration"@.len() == 18,
        "type_declaration"@.len() == 16,
{
    reveal_strlit("function_declaration");
    reveal_strlit("method_declaration");
    reveal_strlit("type_declaration");
}

/// The context that a row sets up is its own name where it is a container.
proof fn lemma_own_context(file_type: FileType, rows: Seq<SyntaxRowView>, a: int, source: Seq<char>)
    requires
        0 <= a < rows.len(),
    ensures
        match tree_sitter_parse::own_context(rows, a, source, file_type) {
            Some(ctx) => {
                &&& is_container(file_type, rows, a)
                &&& forall|via: int, c: int| #[trigger]
                    names(file_type, rows, a, via, c) ==> ctx.name == tree::written(rows, c, source)
                &&& ctx.span == Some(rows[a].start_byte..rows[a].end_byte)
                &&& ctx.node_type == Some(
                    if rows[a].kind == "impl_item"@ {
                        NodeType::Struct
                    } else {
                        NodeType::Class
                    },
                )
            },
            None => !is_container(file_type, rows, a),
        },
{
    lemma_rust_kinds();
    lemma_python_kinds();
    lemma_script_kinds();
    let kind = rows[a].kind;
    match file_type {
        FileType::Rust => {
            if kind == "impl_item"@ {
                tree::law_child_by_field(rows, a, "type"@);
                match syntax::child_by_field(rows, a, "type"@) {
                    Some(t) => {
                        assert(tree::is_some_at(syntax::child_by_field(rows, a, "type"@), t));
                        tree::law_child_by_field(rows, t, "type"@);
                        let inner = syntax::child_by_field(rows, t, "type"@);
                        let c = if rows[t].kind == "generic_type"@ && inner is Some {
                            inner->0
                        } else {
                            t
                        };
                        assert(inner is Some ==> tree::is_some_at(inner, inner->0));
                        assert(names(file_type, rows, a, t, c));
                        assert forall|via: int, d: int| #[trigger]
                            names(file_type, rows, a, via, d) implies via == t && d == c by {
                            assert(tree::is_some_at(
                                syntax::child_by_field(rows, a, "type"@),
                                via,
                            ));
                            assert(d != via ==> tree::is_some_at(inner, d));
                        }
                    },
                    None => {
                        assert forall|via: int, d: int|
                            !#[trigger] names(file_type, rows, a, via, d) by {
                            assert(!tree::is_some_at(
                                syntax::child_by_field(rows, a, "type"@),
                                via,
                            ));
                        }
                    },
                }
            } else if kind == "trait_item"@ {
                lemma_one_name_field(file_type, rows, a);
            }
        },
        FileType::Python => {
            if kind == "class_definition"@ {
                lemma_one_identifier(file_type, rows, a);
            }
        },
        FileType::JavaScript | FileType::TypeScript => {
            if kind == "class_declaration"@ || kind == "class"@ {
                lemma_kind_or_name(file_type, rows, a, "identifier"@);
            }
        },
        _ => {},
    }
}

/// Where the name is the first child under the field `name`, the lookup finds it.
proof fn lemma_one_name_field(file_type: FileType, rows: Seq<SyntaxRowView>, i: int)
    requires
        0 <= i < rows.len(),
        forall|via: int, c: int| #[trigger]
            names(file_type, rows, i, via, c) <==> via == i && tree::is_first_field(
                rows,
                i,
                "name"@,
                c,
            ),
    ensures
        match syntax::child_by_field(rows, i, "name"@) {
            Some(f) => names(file_type, rows, i, i, f) && forall|via: int, c: int| #[trigger]
                names(file_type, rows, i, via, c) ==> c == f,
            None => is_unnamed(file_type, rows, i),
        },
{
    tree::law_child_by_field(rows, i, "name"@);
    let found = syntax::child_by_field(rows, i, "name"@);
    assert(found is Some ==> tree::is_some_at(found, found->0));
    assert forall|via: int, c: int| #[trigger] names(file_type, rows, i, via, c) implies found
        == Some(c) by {
        assert(tree::is_some_at(found, c));
    }
}

/// Where the name is the first child of the kind `identifier`, the lookup finds it.
proof fn lemma_one_identifier(file_type: FileType, rows: Seq<SyntaxRowView>, i: int)
    requires
        0 <= i < rows.len(),
        forall|via: int, c: int| #[trigger]
            names(file_type, rows, i, via, c) <==> via == i && tree::is_first_kind(
                rows,
                i,
                "identifier"@,
                c,
            ),
    ensures
        match syntax::child_by_kind(rows, i, "identifier"@) {
            Some(f) => names(file_type, rows, i, i, f) && forall|via: int, c: int| #[trigger]
                names(file_type, rows, i, via, c) ==> c == f,
            None => is_unnamed(file_type, rows, i),
        },
{
    tree::law_child_by_kind(rows, i, "identifier"@);
    let found = syntax::child_by_kind(rows, i, "identifier"@);
    assert(found is Some ==> tree::is_some_at(found, found->0));
    assert forall|via: int, c: int| #[trigger] names(file_type, rows, i, via, c) implies found
        == Some(c) by {
        assert(tree::is_some_at(found, c));
    }
}

/// Where the name is the first child of a kind, or else the first under the field
/// `name`, the two lookups find it.
proof fn lemma_kind_or_name(
    file_type: FileType,
    rows: Seq<SyntaxRowView>,
    i: int,
    kind: Seq<char>,
)
    requires
        0 <= i < rows.len(),
        forall|via: int, c: int| #[trigger]
            names(file_type, rows, i, via, c) <==> via == i && is_kind_or_name(rows, i, kind, c),
    ensures
        match syntax::child_by_kind(rows, i, kind) {
            Some(f) => names(file_type, rows, i, i, f) && forall|via: int, c: int| #[trigger]
                names(file_type, rows, i, via, c) ==> c == f,
            None => match syntax::child_by_field(rows, i, "name"@) {
                Some(f) => names(file_type, rows, i, i, f) && forall|via: int, c: int| #[trigger]
                    names(file_type, rows, i, via, c) ==> c == f,
                None => is_unnamed(file_type, rows, i),
            },
        },
{
    tree::law_child_by_kind(rows, i, kind);
    tree::law_child_by_field(rows, i, "name"@);
    let found = syntax::child_by_kind(rows, i, kind);
    let named = syntax::child_by_field(rows, i, "name"@);
    assert(found is Some ==> tree::is_some_at(found, found->0));
    assert(named is Some ==> tree::is_some_at(named, named->0));
    assert forall|via: int, c: int| #[trigger] names(file_type, rows, i, via, c) implies (if found
        is Some {
        found == Some(c)
    } else {
        named == Some(c)
    }) by {
        assert(tree::is_some_at(found, c) || tree::is_some_at(named, c));
    }
}

/// The context of a row is that of the nearest container around it.
proof fn lemma_context(file_type: FileType, rows: Seq<SyntaxRowView>, i: int, source: Seq<char>)
    requires
        0 <= i < rows.len(),
    ensures
        match tree_sitter_parse::context_of(rows, i, source, file_type) {
            Some(ctx) => exists|a: int| #[trigger]
                is_nearest(file_type, rows, a, i) && tree_sitter_parse::own_context(
                    rows,
                    a,
                    source,
                    file_type,
                ) == Some(ctx),
            None => !in_container(file_type, rows, i),
        },
    decreases i,
{
    tree_sitter_parse::lemma_parent_from(rows, i, i - 1);
    match tree_sitter_parse::parent_of(rows, i) {
        Some(p) => {
            assert(tree::is_under(rows, p, i));
            assert forall|b: int| #[trigger] tree::is_under(rows, b, i) implies b <= p by {
                if b > p {
                    assert(rows[b].depth >= rows[i].depth);
                }
            }
            lemma_own_context(file_type, rows, p, source);
            match tree_sitter_parse::own_context(rows, p, source, file_type) {
                Some(ctx) => {
                    assert(encloses(file_type, rows, p, i));
                    assert(is_nearest(file_type, rows, p, i));
                },
                None => {
                    lemma_context(file_type, rows, p, source);
                    assert forall|b: int|
                        encloses(file_type, rows, b, i) <==> #[trigger] encloses(
                            file_type,
                            rows,
                            b,
                            p,
                        ) by {
                        tree::law_above(rows, b, p, i);
                        assert(encloses(file_type, rows, b, i) ==> tree::is_under(rows, b, i));
                    }
                    if let Some(ctx) = tree_sitter_parse::context_of(rows, p, source, file_type) {
                        let a = choose|a: int| #[trigger]
                            is_nearest(file_type, rows, a, p) && tree_sitter_parse::own_context(
                                rows,
                                a,
                                source,
                                file_type,
                            ) == Some(ctx);
                        assert(encloses(file_type, rows, a, p));
                        assert forall|b: int| #[trigger] encloses(file_type, rows, b, i) implies b
                            <= a by {
                            assert(encloses(file_type, rows, b, p));
                        }
                        assert(is_nearest(file_type, rows, a, i));
                    } else {
                        assert forall|b: int| !#[trigger] encloses(file_type, rows, b, i) by {
                            assert(encloses(file_type, rows, b, p) ==> in_container(
                                file_type,
                                rows,
                                p,
                            ));
                        }
                    }
                },
            }
        },
        None => {
            assert forall|b: int| !#[trigger] encloses(file_type, rows, b, i) by {
                if tree::is_under(rows, b, i) {
                    assert(rows[b].depth >= rows[i].depth);
                }
            }
        },
    }
}

/// The signature that is recorded is the text of the first child that holds parameters.
proof fn lemma_signature(file_type: FileType, rows: Seq<SyntaxRowView>, i: int, source: Seq<char>)
    requires
        0 <= i < rows.len(),
    ensures
        ({
            let signature = tree_sitter_parse::kind_text(
                rows,
                i,
                parameters_kind(file_type),
                source,
            );
            &&& forall|c: int| #[trigger]
                tree::is_first_kind(rows, i, parameters_kind(file_type), c) ==> signature == Some(
                    tree::written(rows, c, source),
                )
            &&& tree::lacks_kind(rows, i, parameters_kind(file_type)) ==> signature is None
        }),
{
    let kind = parameters_kind(file_type);
    tree::law_child_by_kind(rows, i, kind);
    assert forall|c: int| #[trigger]
        tree::is_first_kind(rows, i, kind, c) implies syntax::child_by_kind(rows, i, kind) == Some(
        c,
    ) by {
        assert(tree::is_some_at(syntax::child_by_kind(rows, i, kind), c));
    }
}

/// The receiver that is recorded of a Go method is its receiver type.
proof fn lemma_receiver(rows: Seq<SyntaxRowView>, i: int, source: Seq<char>)
    requires
        0 <= i < rows.len(),
    ensures
        forall|receiver: int, param: int, ty: int, c: int| #[trigger]
            is_receiver(rows, i, receiver, param, ty, c) ==> tree_sitter_parse::go_receiver(
                rows,
                i,
                source,
            ) == Some(tree::written(rows, c, source)),
        (forall|receiver: int, param: int, ty: int, c: int|
            !#[trigger] is_receiver(rows, i, receiver, param, ty, c))
            ==> tree_sitter_parse::go_receiver(rows, i, source) is None,
{
    tree::law_child_by_field(rows, i, "receiver"@);
    let r = syntax::child_by_field(rows, i, "receiver"@);
    assert forall|receiver: int, param: int, ty: int, c: int| #[trigger]
        is_receiver(rows, i, receiver, param, ty, c) implies tree_sitter_parse::go_receiver(
        rows,
        i,
        source,
    ) == Some(tree::written(rows, c, source)) by {
        assert(tree::is_some_at(r, receiver));
        tree::law_named_child(rows, receiver);
        assert(tree::is_some_at(syntax::named_child(rows, receiver), param));
        tree::law_child_by_field(rows, param, "type"@);
        assert(tree::is_some_at(syntax::child_by_field(rows, param, "type"@), ty));
        if rows[ty].kind == "pointer_type"@ {
            tree::law_named_child(rows, ty);
            assert(tree::is_some_at(syntax::named_child(rows, ty), c));
        }
    }
    if tree_sitter_parse::go_receiver(rows, i, source) is Some {
        let receiver = r->0;
        assert(tree::is_some_at(r, receiver));
        tree::law_named_child(rows, receiver);
        let param = syntax::named_child(rows, receiver)->0;
        assert(tree::is_some_at(syntax::named_child(rows, receiver), param));
        tree::law_child_by_field(rows, param, "type"@);
        let ty = syntax::child_by_field(rows, param, "type"@)->0;
        assert(tree::is_some_at(syntax::child_by_field(rows, param, "type"@), ty));
        if rows[ty].kind == "pointer_type"@ {
            tree::law_named_child(rows, ty);
            let c = syntax::named_child(rows, ty)->0;
            assert(tree::is_some_at(syntax::named_child(rows, ty), c));
            assert(is_receiver(rows, i, receiver, param, ty, c));
        } else {
            assert(is_receiver(rows, i, receiver, param, ty, ty));
        }
    }
}

/// The context that a node names as its parent is that which it belongs to.
proof fn lemma_belongs(
    node: DocumentNodeView,
    file_type: FileType,
    rows: Seq<SyntaxRowView>,
    i: int,
    source: Seq<char>,
)
    requires
        0 <= i < rows.len(),
        tree_sitter_parse::document_node(rows, i, source, file_type) == seq![node],
    ensures
        belongs(node, file_type, rows, i, source),
{
    lemma_rust_kinds();
    lemma_python_kinds();
    lemma_script_kinds();
    lemma_go_kinds();
    assert(seq![node][0] == node);
    lemma_context(file_type, rows, i, source);
    if file_type == FileType::Go {
        lemma_receiver(rows, i, source);
    }
    if let Some(ctx) = tree_sitter_parse::context_of(rows, i, source, file_type) {
        let a = choose|a: int| #[trigger]
            is_nearest(file_type, rows, a, i) && tree_sitter_parse::own_context(
                rows,
                a,
                source,
                file_type,
            ) == Some(ctx);
        lemma_own_context(file_type, rows, a, source);
        assert(encloses(file_type, rows, a, i));
        assert forall|b: int| #[trigger] is_nearest(file_type, rows, b, i) implies b == a by {
            assert(encloses(file_type, rows, b, i));
        }
    } else {
        assert forall|a: int| !#[trigger] is_nearest(file_type, rows, a, i) by {
            if is_nearest(file_type, rows, a, i) {
                assert(encloses(file_type, rows, a, i));
            }
        }
    }
}

/// A row has a node where it defines something, and then one for what it defines.
proof fn lemma_symbol(file_type: FileType, rows: Seq<SyntaxRowView>, i: int, source: Seq<char>)
    requires
        0 <= i < rows.len(),
    ensures
        ({
            let own = tree_sitter_parse::document_node(rows, i, source, file_type);
            if is_definition(file_type, rows, i) {
                own.len() == 1 && is_symbol(own[0], file_type, rows, i, source)
            } else {
                own.len() == 0
            }
        }),
{
    let own = tree_sitter_parse::document_node(rows, i, source, file_type);
    let kind = rows[i].kind;
    tree::law_child_by_kind(rows, i, "type_spec"@);
    lemma_rust_kinds();
    lemma_python_kinds();
    lemma_script_kinds();
    lemma_go_kinds();
    if is_definition(file_type, rows, i) {
        let node = own[0];
        lemma_context(file_type, rows, i, source);
        if let Some(ctx) = tree_sitter_parse::context_of(rows, i, source, file_type) {
            let a = choose|a: int| #[trigger]
                is_nearest(file_type, rows, a, i) && tree_sitter_parse::own_context(
                    rows,
                    a,
                    source,
                    file_type,
                ) == Some(ctx);
            assert(encloses(file_type, rows, a, i));
        }
        assert(is_placed_at(node, file_type, rows, i));
        assert(has_signature(node, file_type, rows, i, source)) by {
            lemma_signature(file_type, rows, i, source);
        }
        assert(own =~= seq![node]);
        lemma_belongs(node, file_type, rows, i, source);
        assert(is_named_for(node, file_type, rows, i, source)) by {
            lemma_named_for(node, file_type, rows, i, source);
        }
    }
}

/// The name that a node records is the one written in the definition.
proof fn lemma_named_for(
    node: DocumentNodeView,
    file_type: FileType,
    rows: Seq<SyntaxRowView>,
    i: int,
    source: Seq<char>,
)
    requires
        0 <= i < rows.len(),
        is_definition(file_type, rows, i),
        tree_sitter_parse::document_node(rows, i, source, file_type) == seq![node],
    ensures
        is_named_for(node, file_type, rows, i, source),
{
    lemma_rust_kinds();
    lemma_python_kinds();
    lemma_script_kinds();
    lemma_go_kinds();
    assert(seq![node][0] == node);
    let kind = rows[i].kind;
    let before = prefix(file_type, kind);
    assert(forall|t: Seq<char>| #[trigger] (Seq::<char>::empty() + t) =~= t);
    match file_type {
        FileType::Rust => {
            if kind == "impl_item"@ {
                lemma_own_context(file_type, rows, i, source);
                if tree_sitter_parse::own_context(rows, i, source, file_type) is None {
                    assert(is_unnamed(file_type, rows, i));
                }
            } else if kind == "function_item"@ {
                tree::law_child_by_kind(rows, i, "identifier"@);
                tree::law_child_by_kind(rows, i, "name"@);
                let a = syntax::child_by_kind(rows, i, "identifier"@);
                let b = syntax::child_by_kind(rows, i, "name"@);
                assert(a is Some ==> tree::is_some_at(a, a->0));
                assert(b is Some ==> tree::is_some_at(b, b->0));
                assert forall|via: int, c: int| #[trigger]
                    names(file_type, rows, i, via, c) implies (if a is Some {
                    a == Some(c)
                } else {
                    b == Some(c)
                }) by {
                    assert(tree::is_some_at(a, c) || tree::is_some_at(b, c));
                }
                if a is Some {
                    assert(names(file_type, rows, i, i, a->0));
                } else if b is Some {
                    assert(names(file_type, rows, i, i, b->0));
                }
            } else if kind == "mod_item"@ {
                lemma_one_identifier(file_type, rows, i);
            } else {
                lemma_one_name_field(file_type, rows, i);
            }
        },
        FileType::Python => {
            lemma_one_identifier(file_type, rows, i);
        },
        FileType::JavaScript | FileType::TypeScript => {
            if kind == "method_definition"@ {
                lemma_one_name_field(file_type, rows, i);
            } else if kind == "interface_declaration"@ || kind == "type_alias_declaration"@ {
                lemma_kind_or_name(file_type, rows, i, "type_identifier"@);
            } else {
                lemma_kind_or_name(file_type, rows, i, "identifier"@);
            }
        },
        FileType::Go => {
            if kind == "type_declaration"@ {
                tree::law_child_by_kind(rows, i, "type_spec"@);
                let t = syntax::child_by_kind(rows, i, "type_spec"@)->0;
                assert(tree::is_some_at(syntax::child_by_kind(rows, i, "type_spec"@), t));
                tree::law_child_by_kind(rows, t, "type_identifier"@);
                let f = syntax::child_by_kind(rows, t, "type_identifier"@);
                assert(f is Some ==> tree::is_some_at(f, f->0));
                assert forall|via: int, c: int| #[trigger]
                    names(file_type, rows, i, via, c) implies f == Some(c) by {
                    assert(tree::is_some_at(
                        syntax::child_by_kind(rows, i, "type_spec"@),
                        via,
                    ));
                    assert(tree::is_some_at(f, c));
                }
                if f is Some {
                    assert(names(file_type, rows, i, t, f->0));
                }
            } else if kind == "method_declaration"@ {
                lemma_one_name_field(file_type, rows, i);
            } else {
                lemma_one_identifier(file_type, rows, i);
            }
        },
        _ => {},
    }
}

/// The first `n` rows have one node for each definition among them, in their order.
proof fn lemma_symbols(
    file_type: FileType,
    rows: Seq<SyntaxRowView>,
    n: nat,
    source: Seq<char>,
) -> (at: Seq<int>)
    requires
        n <= rows.len(),
    ensures
        ({
            let nodes = tree_sitter_parse::document_nodes(rows, n, source, file_type);
            &&& nodes.len() == at.len()
            &&& forall|k: int|
                0 <= k < at.len() ==> 0 <= #[trigger] at[k] < n && is_definition(
                    file_type,
                    rows,
                    at[k],
                ) && is_symbol(nodes[k], file_type, rows, at[k], source)
            &&& forall|k: int, l: int| 0 <= k < l < at.len() ==> #[trigger] at[k] < #[trigger] at[l]
            &&& forall|i: int|
                0 <= i < n && #[trigger] is_definition(file_type, rows, i) ==> at.contains(i)
        }),
    decreases n,
{
    if n == 0 {
        Seq::empty()
    } else {
        let before = lemma_symbols(file_type, rows, (n - 1) as nat, source);
        lemma_symbol(file_type, rows, n - 1, source);
        let nodes = tree_sitter_parse::document_nodes(rows, n, source, file_type);
        if is_definition(file_type, rows, n - 1) {
            let at = before.push(n - 1);
            assert forall|i: int|
                0 <= i < n && #[trigger] is_definition(file_type, rows, i) implies at.contains(
                i,
            ) by {
                if i < n - 1 {
                    let k = before.index_of(i);
                    assert(at[k] == i);
                } else {
                    assert(at[before.len() as int] == i);
                }
            }
            at
        } else {
            before
        }
    }
}

/// The nodes of a source file are one for each definition in it, in the order of the
/// file: `at` gives the row of each. Each node stands where its definition stands,
/// has the type that its kind defines, the name and the parameters written in it, and
/// belongs to the nearest container around it.
pub proof fn law_symbols_indexed(
    file_type: FileType,
    rows: Seq<SyntaxRowView>,
    source: Seq<char>,
) -> (at: Seq<int>)
    ensures
        ({
            let nodes = tree_sitter_parse::document_nodes(rows, rows.len(), source, file_type);
            &&& nodes.len() == at.len()
            &&& forall|k: int|
                0 <= k < at.len() ==> 0 <= #[trigger] at[k] < rows.len() && is_definition(
                    file_type,
                    rows,
                    at[k],
                ) && is_symbol(nodes[k], file_type, rows, at[k], source)
            &&& forall|k: int, l: int| 0 <= k < l < at.len() ==> #[trigger] at[k] < #[trigger] at[l]
            &&& forall|i: int|
                0 <= i < rows.len() && #[trigger] is_definition(file_type, rows, i) ==> at.contains(
                    i,
                )
        }),
{
    lemma_symbols(file_type, rows, rows.len(), source)
}

/// Every method definition of JavaScript and TypeScript that is named has a node: a
/// method with the name that is written, of the nearest class around it.
pub proof fn law_script_methods(
    file_type: FileType,
    rows: Seq<SyntaxRowView>,
    source: Seq<char>,
    i: int,
    name: int,
)
    requires
        file_type == FileType::JavaScript || file_type == FileType::TypeScript,
        0 <= i < rows.len(),
        rows[i].kind == "method_definition"@,
        tree::is_first_field(rows, i, "name"@, name),
    ensures
        ({
            let nodes = tree_sitter_parse::document_nodes(rows, rows.len(), source, file_type);
            exists|k: int|
                {
                    &&& 0 <= k < nodes.len()
                    &&& (#[trigger] nodes[k]).span == (rows[i].start_byte..rows[i].end_byte)
                    &&& nodes[k].metadata == (NodeMetadataView::Method {
                        name: tree::written(rows, name, source),
                        class_name: nodes[k].parent_name,
                    })
                    &&& belongs(nodes[k], file_type, rows, i, source)
                }
        }),
{
    lemma_script_kinds();
    let nodes = tree_sitter_parse::document_nodes(rows, rows.len(), source, file_type);
    let at = law_symbols_indexed(file_type, rows, source);
    assert(is_definition(file_type, rows, i));
    let k = at.index_of(i);
    assert(at[k] == i && is_symbol(nodes[k], file_type, rows, i, source));
    assert(names(file_type, rows, i, i, name));
    assert(Seq::<char>::empty() + tree::written(rows, name, source) =~= tree::written(
        rows,
        name,
        source,
    ));
}

/// A node is searched for by the name that it records.
pub proof fn law_searched_by_name(node: DocumentNodeView)
    ensures
        node.metadata.searchable() == recorded_name(node.metadata),
{
}

} // verus!
