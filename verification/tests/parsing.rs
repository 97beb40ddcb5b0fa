use canopy::document::{NodeMetadata, NodeType, RefType, Reference};
use canopy::parse::bpe::estimate_tokens;
use canopy::parse::lines::parse_as_chunks;
use canopy::parse::markdown::parse_markdown;
use canopy::parse::references::extract_references;
use canopy::parse::syntax::{parse_rows, Grammar};
use canopy::parse::{parse_code_with_tree_sitter, FileType};

/// The references of every node of the syntax tree.
fn collect_refs(source: &str, grammar: Grammar, file_type: FileType) -> Vec<Reference> {
    let rows = parse_rows(grammar, source).unwrap();
    let mut refs = Vec::new();
    for i in 0..rows.len() {
        extract_references(&rows, i, source, &mut refs, file_type);
    }
    refs
}

#[test]
fn parse_test_parse_markdown() {
    let source = r#"# Heading 1

Some paragraph text.

## Heading 2

```rust
fn main() {}
```

More text.
"#;
    let nodes = parse_markdown(source);

    // Should have sections, paragraphs, and code blocks
    assert!(nodes.iter().any(|n| matches!(n.node_type, NodeType::Section)));
    assert!(nodes.iter().any(|n| matches!(n.node_type, NodeType::Paragraph)));
    assert!(nodes.iter().any(|n| matches!(n.node_type, NodeType::CodeBlock)));
}

#[test]
fn parse_test_parse_rust_code() {
    let source = r#"
fn main() {
    println!("Hello");
}

struct Foo {
    bar: i32,
}

impl Foo {
    fn new() -> Self {
        Self { bar: 0 }
    }
}
"#;
    let (nodes, _refs) = parse_code_with_tree_sitter("test.rs", source, FileType::Rust);

    // Should have function and struct
    assert!(nodes.iter().any(|n| matches!(n.node_type, NodeType::Function)));
    assert!(nodes.iter().any(|n| matches!(n.node_type, NodeType::Struct)));
}

#[test]
fn parse_test_parse_chunks() {
    let source = (0..100).map(|i| format!("line {}", i)).collect::<Vec<_>>().join("\n");
    let nodes = parse_as_chunks(&source, 10, 2);

    assert!(!nodes.is_empty());
    assert!(nodes.iter().all(|n| matches!(n.node_type, NodeType::Chunk)));
}

#[test]
fn parse_test_file_type_detection() {
    assert_eq!(FileType::from_path("README.md"), FileType::Markdown);
    assert_eq!(FileType::from_path("src/main.rs"), FileType::Rust);
    assert_eq!(FileType::from_path("app.tsx"), FileType::TypeScript);
    assert_eq!(FileType::from_path("script.js"), FileType::JavaScript);
    assert_eq!(FileType::from_path("main.go"), FileType::Go);
    assert_eq!(FileType::from_path("data.csv"), FileType::Other);
}

#[test]
fn parse_test_estimate_tokens() {
    let text = "Hello, world!";
    let tokens = estimate_tokens(text);
    assert!(tokens > 0);
    assert!(tokens < text.len()); // Should be fewer tokens than chars
}

#[test]
fn mod_test_parse_markdown() {
    let source = r#"# Heading 1

Some paragraph text.

## Heading 2

```rust
fn main() {}
```

More text.
"#;
    let nodes = parse_markdown(source);

    // Should have sections, paragraphs, and code blocks
    assert!(nodes
        .iter()
        .any(|n| matches!(n.node_type, NodeType::Section)));
    assert!(nodes
        .iter()
        .any(|n| matches!(n.node_type, NodeType::Paragraph)));
    assert!(nodes
        .iter()
        .any(|n| matches!(n.node_type, NodeType::CodeBlock)));
}

#[test]
fn mod_test_parse_rust_code() {
    let source = r#"
fn main() {
    println!("Hello");
}

struct Foo {
    bar: i32,
}

impl Foo {
    fn new() -> Self {
        Self { bar: 0 }
    }
}
"#;
    let (nodes, _refs) = parse_code_with_tree_sitter(
        "test.rs",
        source,
        FileType::Rust,
    );

    // Should have function and struct
    assert!(nodes
        .iter()
        .any(|n| matches!(n.node_type, NodeType::Function)));
    assert!(nodes
        .iter()
        .any(|n| matches!(n.node_type, NodeType::Struct)));
}

#[test]
fn mod_test_parse_chunks() {
    let source = (0..100)
        .map(|i| format!("line {}", i))
        .collect::<Vec<_>>()
        .join("\n");
    let nodes = parse_as_chunks(&source, 10, 2);

    assert!(!nodes.is_empty());
    assert!(nodes.iter().all(|n| matches!(n.node_type, NodeType::Chunk)));
}

#[test]
fn mod_test_file_type_detection() {
    assert_eq!(
        FileType::from_path("README.md"),
        FileType::Markdown
    );
    assert_eq!(
        FileType::from_path("src/main.rs"),
        FileType::Rust
    );
    assert_eq!(
        FileType::from_path("app.tsx"),
        FileType::TypeScript
    );
    assert_eq!(
        FileType::from_path("script.js"),
        FileType::JavaScript
    );
    assert_eq!(FileType::from_path("main.go"), FileType::Go);
    assert_eq!(FileType::from_path("data.csv"), FileType::Other);
}

#[test]
fn mod_test_estimate_tokens() {
    let text = "Hello, world!";
    let tokens = estimate_tokens(text);
    assert!(tokens > 0);
    assert!(tokens < text.len()); // Should be fewer tokens than chars
}

#[test]
fn parse_sections_with_headings() {
    let md = "# Introduction\n\nSome intro text.\n\n## Details\n\nMore details here.\n";
    let nodes = parse_markdown(md);

    // Should have: paragraph, section (Introduction), paragraph, section (Details)
    let sections: Vec<_> = nodes
        .iter()
        .filter(|n| n.node_type == NodeType::Section)
        .collect();
    assert_eq!(sections.len(), 2);

    // First section: Introduction (ends when Details heading starts)
    match &sections[0].metadata {
        NodeMetadata::Section { heading, level } => {
            assert_eq!(heading, "Introduction");
            assert_eq!(*level, 1);
        }
        _ => panic!("Expected Section metadata"),
    }

    // Second section: Details (extends to end of document)
    match &sections[1].metadata {
        NodeMetadata::Section { heading, level } => {
            assert_eq!(heading, "Details");
            assert_eq!(*level, 2);
        }
        _ => panic!("Expected Section metadata"),
    }
}

#[test]
fn parse_fenced_code_blocks() {
    let md = "# Example\n\n```rust\nfn main() {}\n```\n\n```\nplain code\n```\n";
    let nodes = parse_markdown(md);

    let code_blocks: Vec<_> = nodes
        .iter()
        .filter(|n| n.node_type == NodeType::CodeBlock)
        .collect();
    assert_eq!(code_blocks.len(), 2);

    // First code block has language annotation
    match &code_blocks[0].metadata {
        NodeMetadata::CodeBlock { language } => {
            assert_eq!(language.as_deref(), Some("rust"));
        }
        _ => panic!("Expected CodeBlock metadata"),
    }

    // Second code block has no language
    match &code_blocks[1].metadata {
        NodeMetadata::CodeBlock { language } => {
            assert!(language.is_none());
        }
        _ => panic!("Expected CodeBlock metadata"),
    }
}

#[test]
fn parse_empty_input() {
    let nodes = parse_markdown("");
    assert!(nodes.is_empty());
}

#[test]
fn parse_paragraphs_and_line_ranges() {
    let md = "First paragraph.\n\nSecond paragraph.\n";
    let nodes = parse_markdown(md);

    let paragraphs: Vec<_> = nodes
        .iter()
        .filter(|n| n.node_type == NodeType::Paragraph)
        .collect();
    assert_eq!(paragraphs.len(), 2);

    // Line ranges should be 1-indexed and non-overlapping
    assert_eq!(paragraphs[0].line_range.0, 1);
    assert!(paragraphs[0].line_range.1 <= paragraphs[1].line_range.0);

    // All paragraph metadata should be NodeMetadata::Paragraph
    assert!(matches!(paragraphs[0].metadata, NodeMetadata::Paragraph));
    assert!(matches!(paragraphs[1].metadata, NodeMetadata::Paragraph));
}

#[test]
fn rust_call_and_use_references() {
    let source = "use std::collections::HashMap;\n\nfn main() {\n    let x = foo();\n    let y = bar::baz();\n}\n";
    let refs = collect_refs(source, Grammar::Rust, FileType::Rust);

    // Should find use imports
    let imports: Vec<_> = refs
        .iter()
        .filter(|r| r.ref_type == RefType::Import)
        .collect();
    assert!(!imports.is_empty(), "should extract at least one import");
    assert!(
        imports.iter().any(|r| r.name == "HashMap"),
        "should find HashMap import, got: {:?}",
        imports.iter().map(|r| &r.name).collect::<Vec<_>>()
    );

    // Should find function calls
    let calls: Vec<_> = refs
        .iter()
        .filter(|r| r.ref_type == RefType::Call)
        .collect();
    assert!(
        calls.iter().any(|r| r.name == "foo"),
        "should find foo() call, got: {:?}",
        calls.iter().map(|r| &r.name).collect::<Vec<_>>()
    );
    assert!(
        calls
            .iter()
            .any(|r| r.name == "baz" && r.qualifier.as_deref() == Some("bar")),
        "should find bar::baz() call with qualifier"
    );
}

#[test]
fn javascript_import_and_call_references() {
    let source = "import { useState, useEffect } from 'react';\n\nfunction App() {\n  const [x, setX] = useState(0);\n  console.log(x);\n}\n";
    let refs = collect_refs(
        source,
        Grammar::JavaScript,
        FileType::JavaScript,
    );

    let imports: Vec<_> = refs
        .iter()
        .filter(|r| r.ref_type == RefType::Import)
        .collect();
    assert!(
        imports.iter().any(|r| r.name == "useState"),
        "should find useState import, got: {:?}",
        imports.iter().map(|r| &r.name).collect::<Vec<_>>()
    );
    assert!(
        imports.iter().any(|r| r.name == "useEffect"),
        "should find useEffect import"
    );

    let calls: Vec<_> = refs
        .iter()
        .filter(|r| r.ref_type == RefType::Call)
        .collect();
    assert!(
        calls.iter().any(|r| r.name == "useState"),
        "should find useState() call, got: {:?}",
        calls.iter().map(|r| &r.name).collect::<Vec<_>>()
    );
    // console.log is a member_expression call
    assert!(
        calls
            .iter()
            .any(|r| r.name == "log" && r.qualifier.as_deref() == Some("console")),
        "should find console.log() call with qualifier"
    );
}

#[test]
fn python_import_and_call_references() {
    let source = "from os.path import join\nimport sys\n\ndef main():\n    result = join('a', 'b')\n    sys.exit(0)\n";
    let refs = collect_refs(
        source,
        Grammar::Python,
        FileType::Python,
    );

    let imports: Vec<_> = refs
        .iter()
        .filter(|r| r.ref_type == RefType::Import)
        .collect();
    assert!(
        imports.iter().any(|r| r.name == "join"),
        "should find 'join' import, got: {:?}",
        imports.iter().map(|r| &r.name).collect::<Vec<_>>()
    );

    let calls: Vec<_> = refs
        .iter()
        .filter(|r| r.ref_type == RefType::Call)
        .collect();
    assert!(
        calls.iter().any(|r| r.name == "join"),
        "should find join() call, got: {:?}",
        calls.iter().map(|r| &r.name).collect::<Vec<_>>()
    );
    assert!(
        calls
            .iter()
            .any(|r| r.name == "exit" && r.qualifier.as_deref() == Some("sys")),
        "should find sys.exit() call with qualifier"
    );
}

#[test]
fn empty_source_yields_no_references() {
    let refs = collect_refs("", Grammar::Rust, FileType::Rust);
    assert!(refs.is_empty());

    let refs = collect_refs(
        "",
        Grammar::JavaScript,
        FileType::JavaScript,
    );
    assert!(refs.is_empty());

    let refs = collect_refs("", Grammar::Python, FileType::Python);
    assert!(refs.is_empty());
}
