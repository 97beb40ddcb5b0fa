use canopy::config::{checked_duration, default_ignore_patterns, Config};
use canopy::document::{NodeMetadata, NodeType, RefType};
use canopy::error::{CanopyError, ErrorEnvelope};
use canopy::generation::{Generation, ShardStatus};
use canopy::globs::matching;
use canopy::handle::{generate_preview, safe_slice, Handle, HandleId, HandleSource};
use canopy::hashing::{is_digest, sha256};
use canopy::json::{object_text, JsonField, JsonObject, JsonScalar};
use canopy::parse::bpe::{estimate_tokens, tokens_or_fallback, warm_bpe};
use canopy::parse::lines::{parse_as_chunks, parse_as_single_node, span_to_line_range};
use canopy::paths::extension;

#[test]
fn id_is_the_first_half_of_a_digest() {
    let id = HandleId::new("src/main.rs", NodeType::Function, &(100..200));
    assert_eq!(id.raw(), "480e9c0b26bb3a74820d0ca0");
    assert_eq!(id.to_string(), "h480e9c0b26bb3a74820d0ca0");
    let other = HandleId::new("README.md", NodeType::Section, &(0..10));
    assert_eq!(other.raw(), "22f057209915cb9fb8ea43ce");
}

#[test]
fn id_parses_with_and_without_prefix() {
    let id = HandleId::parse("h0aF").unwrap();
    assert_eq!(id.raw(), "0aF");
    assert_eq!(HandleId::parse("0aF").unwrap(), id);
    assert_eq!(HandleId::parse("").unwrap().raw(), "");
    match HandleId::parse("src/fake.rs::Function::0:100") {
        Err(CanopyError::InvalidHandle(message)) => {
            assert_eq!(message, "Invalid handle ID: src/fake.rs::Function::0:100");
        }
        _ => panic!("Expected InvalidHandle"),
    }
    match HandleId::parse("hxyz") {
        Err(e) => assert_eq!(e.to_string(), "Invalid handle ID: Invalid handle ID: xyz"),
        Ok(_) => panic!("Expected an error"),
    }
}

#[test]
fn new_handles_are_local() {
    let span = 3..7;
    let handle = Handle::new("a.rs".to_string(), NodeType::Class, span, (1, 2), 9, "p".to_string());
    assert_eq!(handle.id, HandleId::new("a.rs", NodeType::Class, &(3..7)));
    assert_eq!(handle.source, HandleSource::Local);
    assert!(handle.content.is_none());
    let filled = handle.with_content("body".to_string());
    assert_eq!(filled.content.as_deref(), Some("body"));
    assert_eq!(filled.token_count, 9);
}

#[test]
fn slices_never_cut_characters() {
    let s = "a\u{e9}b";
    assert_eq!(safe_slice(s, 0, 2), "a");
    assert_eq!(safe_slice(s, 2, 4), "b");
    assert_eq!(safe_slice(s, 1, 3), "\u{e9}");
    assert_eq!(safe_slice(s, 3, 1), "");
    assert_eq!(safe_slice(s, 9, 12), "");
}

#[test]
fn previews_fold_whitespace() {
    let source = "fn  main() {\n\treturn;\n}\n";
    assert_eq!(generate_preview(source, &(0..source.len()), 100), "fn main() { return; }");
    assert_eq!(generate_preview(source, &(0..source.len()), 10), "fn main()...");
    assert_eq!(generate_preview(source, &(4..8), 4), "main");
    assert_eq!(generate_preview(source, &(4..8), 0), "...");
    assert_eq!(generate_preview("", &(0..0), 0), "");
}

#[test]
fn digests_are_those_of_sha256() {
    let digest = sha256(b"abc");
    assert_eq!(&digest[..4], &[186, 120, 22, 191]);
    assert!(is_digest(&digest.to_vec(), &digest));
    assert!(!is_digest(&vec![186, 120], &digest));
    assert!(!is_digest(&sha256(b"abd").to_vec(), &digest));
}

#[test]
fn tokens_are_counted_by_the_encoder() {
    warm_bpe();
    assert_eq!(estimate_tokens("Hello, world!"), 4);
    assert_eq!(estimate_tokens(""), 0);
    assert_eq!(tokens_or_fallback(Some(7), "abcdefgh"), 7);
    assert_eq!(tokens_or_fallback(None, "abcdefgh"), 2);
    assert_eq!(tokens_or_fallback(None, "abc"), 0);
}

#[test]
fn globs_match_paths() {
    let paths: Vec<String> = ["src/a.rs", "src/b/c.rs", "README.md"]
        .iter()
        .map(|p| p.to_string())
        .collect();
    assert_eq!(matching("**/*.rs", &paths).unwrap(), vec![true, true, false]);
    assert_eq!(matching("*.md", &paths).unwrap(), vec![false, false, true]);
    assert_eq!(matching("{README,LICENSE}.md", &paths).unwrap(), vec![false, false, true]);
    assert!(matching("a[", &paths).is_err());
    assert!(matching("{a", &paths).is_err());
}

#[test]
fn extensions_follow_the_last_dot() {
    assert_eq!(extension("src/main.rs").as_deref(), Some("rs"));
    assert_eq!(extension("a/b.tar.gz").as_deref(), Some("gz"));
    assert_eq!(extension("a.rs/").as_deref(), Some("rs"));
    assert_eq!(extension("a.rs/.").as_deref(), Some("rs"));
    assert_eq!(extension(".gitignore"), None);
    assert_eq!(extension("Makefile"), None);
    assert_eq!(extension("a.rs/.."), None);
    assert_eq!(extension("name.").as_deref(), Some(""));
    assert_eq!(extension(""), None);
}

#[test]
fn lines_are_numbered_from_one() {
    let source = "one\ntwo\nthree";
    assert_eq!(span_to_line_range(source, &(0..3)), (1, 1));
    assert_eq!(span_to_line_range(source, &(4..13)), (2, 3));
    assert_eq!(span_to_line_range(source, &(3..4)), (1, 2));
    assert_eq!(span_to_line_range(source, &(8..100)), (3, 3));
}

#[test]
fn chunks_overlap_and_reach_the_end() {
    let source = "l0\nl1\nl2\nl3\nl4\n";
    let nodes = parse_as_chunks(source, 3, 1);
    let spans: Vec<(usize, usize)> = nodes.iter().map(|n| (n.span.start, n.span.end)).collect();
    assert_eq!(spans, vec![(0, 9), (6, 15), (12, 15)]);
    let lines: Vec<(usize, usize)> = nodes.iter().map(|n| n.line_range).collect();
    assert_eq!(lines, vec![(1, 3), (3, 5), (5, 5)]);
    assert!(matches!(nodes[2].metadata, NodeMetadata::Chunk { index: 2 }));
    assert!(parse_as_chunks("", 3, 1).is_empty());
    assert_eq!(parse_as_chunks("a\nb\n", 1, 5).len(), 2);
}

#[test]
fn a_whole_file_is_one_chunk() {
    let nodes = parse_as_single_node("a\nb\n");
    assert_eq!(nodes.len(), 1);
    assert_eq!(nodes[0].span, 0..4);
    assert_eq!(nodes[0].node_type, NodeType::Chunk);
    assert!(matches!(nodes[0].metadata, NodeMetadata::Chunk { index: 0 }));
}

#[test]
fn durations_have_a_unit() {
    assert_eq!(checked_duration(" 7s "), Some(Some(7)));
    assert_eq!(checked_duration("+2m"), Some(Some(120)));
    assert_eq!(checked_duration("d"), Some(None));
    assert_eq!(checked_duration(""), Some(None));
    assert_eq!(checked_duration("5x"), Some(None));
    assert_eq!(checked_duration("18446744073709551615s"), Some(Some(u64::MAX)));
    assert_eq!(checked_duration("18446744073709551616s"), Some(None));
    assert_eq!(checked_duration("18446744073709551615m"), None);
}

#[test]
fn defaults_of_the_configuration() {
    let config = Config::default();
    assert_eq!(config.core.ttl, "1h");
    assert_eq!(config.core.encoding, "cl100k_base");
    assert_eq!(config.core.default_result_limit, 100);
    assert_eq!(config.indexing.chunk_threshold, 1_000_000);
    assert_eq!(config.indexing.chunk_lines, 50);
    assert_eq!(config.indexing.chunk_overlap, 10);
    assert_eq!(config.indexing.preview_bytes, 100);
    assert_eq!(config.fts.tokenizer, "unicode61");
    assert_eq!(
        config.default_glob(),
        "**/*.{rs,py,js,ts,tsx,jsx,go,md,txt,json,yaml,yml,toml}"
    );
    assert_eq!(
        default_ignore_patterns(),
        vec![".git", ".canopy", "node_modules", "target", "__pycache__"]
    );
    let odd = Config {
        core: canopy::config::CoreConfig {
            ttl: "soon".to_string(),
            encoding: "e".to_string(),
            default_result_limit: 1,
        },
        ..Config::default()
    };
    assert_eq!(odd.ttl_duration(), 3600);
}

#[test]
fn node_types_have_codes_and_names() {
    assert_eq!(NodeType::Section.as_int(), 0);
    assert_eq!(NodeType::Chunk.as_int(), 7);
    assert_eq!(NodeType::from_name("code_block"), Some(NodeType::CodeBlock));
    assert_eq!(NodeType::from_name("Section"), None);
    assert_eq!(RefType::TypeRef.as_str(), "type_ref");
}

#[test]
fn metadata_survives_json() {
    let text = NodeMetadata::Method {
        name: "a \"quoted\"\nname".to_string(),
        class_name: None,
    }
    .to_json();
    match NodeMetadata::from_json(&text, NodeType::Method) {
        Some(NodeMetadata::Method { name, class_name }) => {
            assert_eq!(name, "a \"quoted\"\nname");
            assert!(class_name.is_none());
        }
        _ => panic!("Expected Method"),
    }
    assert!(NodeMetadata::from_json("[1]", NodeType::Paragraph).is_some());
    assert!(NodeMetadata::from_json("[1]", NodeType::Class).is_none());
    assert!(NodeMetadata::from_json("{\"index\": -1}", NodeType::Chunk).is_none());
}

#[test]
fn json_objects_are_read_by_field() {
    let text = object_text(vec![
        ("a".to_string(), JsonScalar::Number(3)),
        ("b".to_string(), JsonScalar::Text("x".to_string())),
        ("c".to_string(), JsonScalar::Null),
    ]);
    let object = JsonObject::parse(&text).unwrap();
    assert_eq!(object.get_number("a"), Some(3));
    assert_eq!(object.get_text("b").as_deref(), Some("x"));
    assert!(matches!(object.get("c"), Some(JsonField::Null)));
    assert!(object.get("d").is_none());
    let object = JsonObject::parse("{\"n\": 1.5, \"t\": true, \"l\": [\"x\", 1], \"n\": 2}").unwrap();
    assert_eq!(object.get_number("n"), Some(2));
    assert!(matches!(object.get("t"), Some(JsonField::Bool(true))));
    match object.get("l") {
        Some(JsonField::List(items)) => assert_eq!(*items, vec![Some("x".to_string()), None]),
        _ => panic!("Expected a list"),
    }
    assert!(JsonObject::parse("{").is_none());
}

#[test]
fn errors_describe_themselves() {
    let shown = |e: CanopyError| e.to_string();
    assert_eq!(shown(CanopyError::Database("x".to_string())), "Database error: x");
    assert_eq!(shown(CanopyError::Io("file gone".to_string())), "IO error: file gone");
    assert_eq!(shown(CanopyError::FileNotFound("p".to_string())), "File not found: p");
    assert_eq!(
        shown(CanopyError::NotInitialized),
        "Not a canopy repo (no .canopy directory). Run 'canopy init' first."
    );
    assert_eq!(
        shown(CanopyError::ConfigExists("c".to_string())),
        "Config already exists at c"
    );
    assert_eq!(shown(CanopyError::ConfigParse("c".to_string())), "Config parse error: c");
    assert_eq!(shown(CanopyError::GlobPattern("g".to_string())), "Glob pattern error: g");
    assert_eq!(shown(CanopyError::HandleNotFound("h1".to_string())), "Handle not found: h1");
    assert_eq!(
        shown(CanopyError::TreeSitterParse {
            path: "p".to_string(),
            message: "m".to_string()
        }),
        "Tree-sitter parse error for p: m"
    );
    assert_eq!(
        shown(CanopyError::NoServiceConfigured),
        "No service URL configured \u{2014} pass --service-url or set CANOPY_SERVICE_URL"
    );
    assert_eq!(shown(CanopyError::Serialization("s".to_string())), "Serialization error: s");
    assert_eq!(
        shown(CanopyError::SchemaVersionMismatch {
            found: -1,
            expected: 3
        }),
        "Schema version mismatch: database is v-1, expected v3. Run 'canopy invalidate' then \
         'canopy index' to reindex."
    );
    let envelope = ErrorEnvelope::stale_generation(5, 3);
    assert_eq!(envelope.message, "Expected generation 5, found 3");
}

#[test]
fn generations_count_up() {
    assert!(Generation::default() == Generation::new());
    assert_eq!(Generation::from_value(41).next().to_string(), "42");
    assert_eq!(ShardStatus::default(), ShardStatus::Pending);
    assert_eq!(ShardStatus::Indexing.as_str(), "indexing");
}
