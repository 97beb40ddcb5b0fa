use canopy::config::Config;
use canopy::document::{NodeMetadata, NodeType, RefType};
use canopy::parse::markdown::{nodes_of_events, parse_markdown, MarkdownEvent, MarkdownKind};
use canopy::parse::references::extract_call_target;
use canopy::parse::syntax::{
    check_rows, find_child_by_field, find_child_text, node_text, parse_rows, Grammar, SyntaxRow,
};
use canopy::parse::{
    check_file, parse_code_rows, parse_code_with_tree_sitter, parse_file, select_grammar,
    try_parse_file, FileType,
};

fn names(source: &str, path: &str) -> Vec<(NodeType, String)> {
    let (nodes, _) = parse_code_with_tree_sitter(path, source, FileType::from_path(path));
    nodes
        .iter()
        .map(|n| {
            let name = n.metadata.searchable_name().unwrap_or("").to_string();
            (n.node_type, name)
        })
        .collect()
}

fn row(depth: usize, kind: &str, field: Option<&str>, start: usize, end: usize) -> SyntaxRow {
    SyntaxRow {
        depth,
        kind: kind.to_string(),
        field: field.map(str::to_string),
        named: true,
        start_byte: start,
        end_byte: end,
        start_row: 0,
        end_row: 0,
    }
}

#[test]
fn functions_know_their_type() {
    let source = "struct Foo;\n\nimpl<T> Foo<T> {\n    fn new() -> Self { Foo }\n}\n";
    let (nodes, _) = parse_code_with_tree_sitter("a.rs", source, FileType::Rust);
    let names: Vec<&str> = nodes
        .iter()
        .map(|n| n.metadata.searchable_name().unwrap())
        .collect();
    assert_eq!(names, vec!["Foo", "Foo", "new"]);
    assert_eq!(nodes[2].node_type, NodeType::Function);
    assert_eq!(nodes[2].parent_name.as_deref(), Some("Foo"));
    assert_eq!(nodes[2].parent_node_type, Some(NodeType::Struct));
    assert_eq!(nodes[2].parent_span, Some(nodes[1].span.clone()));
    assert_eq!(&source[nodes[2].span.clone()], "fn new() -> Self { Foo }");
    assert_eq!(nodes[2].line_range, (4, 4));
    assert!(nodes[1].parent_name.is_none());
}

#[test]
fn functions_show_their_signature() {
    let source = "fn add(a: i32) -> i32 {\n    a\n}\n";
    let (nodes, _) = parse_code_with_tree_sitter("a.rs", source, FileType::Rust);
    match &nodes[0].metadata {
        NodeMetadata::Function { name, signature } => {
            assert_eq!(name, "add");
            assert_eq!(signature.as_deref(), Some("(a: i32)"));
        }
        _ => panic!("Expected Function"),
    }
    assert_eq!(nodes[0].span, 0..source.len() - 1);
    assert_eq!(nodes[0].line_range, (1, 3));
}

#[test]
fn other_languages_have_definitions() {
    let python = names("class A:\n    def m(self):\n        pass\n\ndef f():\n    pass\n", "a.py");
    assert!(python.contains(&(NodeType::Class, "A".to_string())));
    assert!(python.contains(&(NodeType::Method, "m".to_string())));
    assert!(python.contains(&(NodeType::Function, "f".to_string())));
    let script = names("class A { m() {} }\nfunction f() {}\n", "a.js");
    assert!(script.contains(&(NodeType::Class, "A".to_string())));
    assert!(script.contains(&(NodeType::Function, "f".to_string())));
    let go = names("package p\n\ntype T struct{}\n\nfunc (t *T) M() {}\n\nfunc F() {}\n", "a.go");
    assert!(go.contains(&(NodeType::Function, "F".to_string())));
    assert!(go.contains(&(NodeType::Method, "M".to_string())));
    let typed = names("interface I {}\ntype T = string;\n", "a.ts");
    assert_eq!(
        typed,
        vec![(NodeType::Struct, "I".to_string()), (NodeType::Struct, "T".to_string())]
    );
    let go_source = "package p\n\nfunc (t *T) M() {}\n";
    let (nodes, _) = parse_code_with_tree_sitter("a.go", go_source, FileType::Go);
    assert_eq!(nodes[0].parent_name.as_deref(), Some("T"));
    assert!(nodes[0].parent_node_type.is_none());
}

#[test]
fn grammars_follow_the_path() {
    assert_eq!(select_grammar("a.rs", FileType::Rust), Some(Grammar::Rust));
    assert_eq!(select_grammar("a.tsx", FileType::TypeScript), Some(Grammar::Tsx));
    assert_eq!(select_grammar("a.ts", FileType::TypeScript), Some(Grammar::TypeScript));
    assert_eq!(select_grammar("a.md", FileType::Markdown), None);
}

#[test]
fn code_without_definitions_is_one_chunk() {
    let (nodes, refs) = parse_code_rows(None, "let x", FileType::Rust);
    assert_eq!(nodes.len(), 1);
    assert_eq!(nodes[0].node_type, NodeType::Chunk);
    assert!(refs.is_empty());
    let (nodes, _) = parse_code_with_tree_sitter("a.rs", "// only words\n", FileType::Rust);
    assert_eq!(nodes.len(), 1);
    assert_eq!(nodes[0].node_type, NodeType::Chunk);
}

#[test]
fn trees_are_read_by_row() {
    let source = "foo.bar()";
    let rows = vec![
        row(0, "call_expression", None, 0, 9),
        row(1, "member_expression", Some("function"), 0, 7),
        row(2, "identifier", Some("object"), 0, 3),
        row(2, "property_identifier", Some("property"), 4, 7),
        row(1, "arguments", Some("arguments"), 7, 9),
    ];
    assert!(check_rows(&rows, source));
    assert_eq!(find_child_by_field(&rows, 0, "function"), Some(1));
    assert_eq!(find_child_by_field(&rows, 0, "object"), None);
    assert_eq!(find_child_text(&rows, 1, "identifier", source).as_deref(), Some("foo"));
    assert_eq!(node_text(&rows, 3, source), "bar");
    let (name, qualifier) = extract_call_target(&rows, 1, source);
    assert_eq!((name.as_str(), qualifier.as_deref()), ("bar", Some("foo")));
    assert!(!check_rows(&vec![row(0, "x", None, 0, 10)], source));
    assert!(!check_rows(&vec![row(0, "x", None, 3, 2)], source));
}

#[test]
fn syntax_trees_come_from_the_parser() {
    let rows = parse_rows(Grammar::Rust, "fn f() {}").unwrap();
    assert_eq!(rows[0].kind, "source_file");
    assert_eq!((rows[0].depth, rows[0].start_byte, rows[0].end_byte), (0, 0, 9));
    let name = rows.iter().find(|r| r.field.as_deref() == Some("name")).unwrap();
    assert_eq!(name.kind, "identifier");
    assert_eq!((name.start_byte, name.end_byte, name.named), (3, 4, true));
}

#[test]
fn sections_end_where_the_next_begins() {
    let source = "# A\n\ntext\n\n## B\n\n    code\n";
    let nodes = parse_markdown(source);
    let sections: Vec<(usize, usize)> = nodes
        .iter()
        .filter(|n| n.node_type == NodeType::Section)
        .map(|n| (n.span.start, n.span.end))
        .collect();
    assert_eq!(sections, vec![(0, 11), (11, source.len())]);
    let code = nodes.iter().find(|n| n.node_type == NodeType::CodeBlock).unwrap();
    assert!(matches!(&code.metadata, NodeMetadata::CodeBlock { language: None }));
}

#[test]
fn sections_come_from_events() {
    let event = |kind, start, end| MarkdownEvent { kind, start, end };
    let events = vec![
        event(MarkdownKind::ParagraphStart, 0, 3),
        event(MarkdownKind::Text("one".to_string()), 0, 3),
        event(MarkdownKind::ParagraphEnd, 0, 3),
        event(MarkdownKind::HeadingStart(3), 4, 8),
        event(MarkdownKind::Text("Tw".to_string()), 4, 6),
        event(MarkdownKind::Text("o".to_string()), 6, 7),
        event(MarkdownKind::HeadingEnd, 4, 8),
    ];
    let nodes = nodes_of_events(&events, "one\n# Two");
    assert_eq!(nodes.len(), 2);
    assert_eq!(nodes[0].node_type, NodeType::Paragraph);
    assert_eq!(nodes[0].span, 0..3);
    match &nodes[1].metadata {
        NodeMetadata::Section { heading, level } => assert_eq!((heading.as_str(), *level), ("Two", 3)),
        _ => panic!("Expected Section"),
    }
    assert_eq!(nodes[1].span, 4..9);
}

#[test]
fn files_are_parsed_by_type() {
    let config = Config::default();
    assert!(check_file("a.rs", "fn f() {}"));
    let parsed = parse_file("a.rs", "fn f() { g(); }", &config, 5);
    assert_eq!(parsed.path, "a.rs");
    assert_eq!(parsed.mtime, 5);
    assert_eq!(parsed.nodes.len(), 1);
    assert_eq!(parsed.refs.len(), 1);
    assert_eq!(parsed.refs[0].name, "g");
    assert_eq!(parsed.refs[0].ref_type, RefType::Call);
    assert_eq!(parsed.content_hash, canopy::hashing::sha256(b"fn f() { g(); }"));
    let text = try_parse_file("notes.txt", "a\nb\n", &config, 0).unwrap();
    assert_eq!(text.nodes.len(), 1);
    assert_eq!(text.nodes[0].line_range, (1, 2));
    let small = Config {
        indexing: canopy::config::IndexingConfig {
            chunk_threshold: 3,
            chunk_lines: 1,
            chunk_overlap: 0,
            ..config.indexing
        },
        ..Config::default()
    };
    let chunked = parse_file("notes.txt", "a\nb\n", &small, 0);
    assert_eq!(chunked.nodes.len(), 2);
}
