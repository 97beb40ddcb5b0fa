use canopy::capped_map::{CappedMap, CappedSet};
use canopy::config::{parse_duration, Config};
use canopy::document::{NodeMetadata, NodeType, RefType};
use canopy::error::{CanopyError, ErrorEnvelope};
use canopy::generation::Generation;
use canopy::handle::{generate_preview, safe_slice, HandleId};

#[test]
fn evicts_oldest_on_overflow() {
    let mut map = CappedMap::new(2);
    map.insert("a", 1);
    map.insert("b", 2);
    map.insert("c", 3);
    assert!(map.get(&"a").is_none());
    assert_eq!(*map.get(&"b").unwrap(), 2);
    assert_eq!(*map.get(&"c").unwrap(), 3);
}

#[test]
fn update_existing_does_not_evict() {
    let mut map = CappedMap::new(2);
    map.insert("a", 1);
    map.insert("b", 2);
    map.insert("a", 10); // update, not new
    assert_eq!(*map.get(&"a").unwrap(), 10);
    assert_eq!(map.len(), 2);
}

#[test]
fn capped_set_eviction() {
    let mut set = CappedSet::new(2);
    assert!(set.insert("x"));
    assert!(set.insert("y"));
    assert!(set.insert("z"));
    assert!(!set.contains(&"x"));
    assert!(set.contains(&"y"));
    assert!(set.contains(&"z"));
}

#[test]
fn test_parse_duration() {
    assert_eq!(parse_duration("30s"), Some(30));
    assert_eq!(parse_duration("5m"), Some(300));
    assert_eq!(parse_duration("1h"), Some(3600));
    assert_eq!(parse_duration("2d"), Some(172800));
    assert_eq!(parse_duration("invalid"), None);
}

#[test]
fn test_ttl_duration() {
    let config = Config::default();
    assert_eq!(config.ttl_duration(), 3600);
}

#[test]
fn node_type_as_int_roundtrip() {
    let variants = [
        NodeType::Section,
        NodeType::CodeBlock,
        NodeType::Paragraph,
        NodeType::Function,
        NodeType::Class,
        NodeType::Struct,
        NodeType::Method,
        NodeType::Chunk,
    ];
    for variant in variants {
        let int_val = variant.as_int();
        let recovered = NodeType::from_int(int_val)
            .unwrap_or_else(|| panic!("from_int failed for {}", int_val));
        assert_eq!(recovered, variant);
    }
}

#[test]
fn node_type_from_int_invalid_returns_none() {
    assert!(NodeType::from_int(8).is_none());
    assert!(NodeType::from_int(255).is_none());
}

#[test]
fn node_type_as_str_values() {
    assert_eq!(NodeType::Section.as_str(), "section");
    assert_eq!(NodeType::Function.as_str(), "function");
    assert_eq!(NodeType::Class.as_str(), "class");
    assert_eq!(NodeType::Struct.as_str(), "struct");
    assert_eq!(NodeType::Method.as_str(), "method");
    assert_eq!(NodeType::Chunk.as_str(), "chunk");
    assert_eq!(NodeType::CodeBlock.as_str(), "code_block");
    assert_eq!(NodeType::Paragraph.as_str(), "paragraph");
}

#[test]
fn node_metadata_json_roundtrip_function() {
    let meta = NodeMetadata::Function {
        name: "my_func".to_string(),
        signature: Some("fn my_func(x: i32) -> bool".to_string()),
    };
    let json = meta.to_json();
    let recovered = NodeMetadata::from_json(&json, NodeType::Function).unwrap();
    match recovered {
        NodeMetadata::Function { name, signature } => {
            assert_eq!(name, "my_func");
            assert_eq!(signature.as_deref(), Some("fn my_func(x: i32) -> bool"));
        }
        _ => panic!("Expected Function metadata"),
    }
}

#[test]
fn node_metadata_json_roundtrip_section() {
    let meta = NodeMetadata::Section {
        heading: "Introduction".to_string(),
        level: 2,
    };
    let json = meta.to_json();
    let recovered = NodeMetadata::from_json(&json, NodeType::Section).unwrap();
    match recovered {
        NodeMetadata::Section { heading, level } => {
            assert_eq!(heading, "Introduction");
            assert_eq!(level, 2);
        }
        _ => panic!("Expected Section metadata"),
    }
}

#[test]
fn node_metadata_json_roundtrip_all_variants() {
    // CodeBlock with language
    let meta = NodeMetadata::CodeBlock {
        language: Some("rust".to_string()),
    };
    let json = meta.to_json();
    let recovered = NodeMetadata::from_json(&json, NodeType::CodeBlock).unwrap();
    match recovered {
        NodeMetadata::CodeBlock { language } => {
            assert_eq!(language.as_deref(), Some("rust"));
        }
        _ => panic!("Expected CodeBlock"),
    }

    // CodeBlock without language
    let meta = NodeMetadata::CodeBlock { language: None };
    let json = meta.to_json();
    let recovered = NodeMetadata::from_json(&json, NodeType::CodeBlock).unwrap();
    match recovered {
        NodeMetadata::CodeBlock { language } => assert!(language.is_none()),
        _ => panic!("Expected CodeBlock"),
    }

    // Paragraph
    let meta = NodeMetadata::Paragraph;
    let json = meta.to_json();
    let recovered = NodeMetadata::from_json(&json, NodeType::Paragraph).unwrap();
    assert!(matches!(recovered, NodeMetadata::Paragraph));

    // Class
    let meta = NodeMetadata::Class {
        name: "MyClass".to_string(),
    };
    let json = meta.to_json();
    let recovered = NodeMetadata::from_json(&json, NodeType::Class).unwrap();
    match recovered {
        NodeMetadata::Class { name } => assert_eq!(name, "MyClass"),
        _ => panic!("Expected Class"),
    }

    // Struct
    let meta = NodeMetadata::Struct {
        name: "Config".to_string(),
    };
    let json = meta.to_json();
    let recovered = NodeMetadata::from_json(&json, NodeType::Struct).unwrap();
    match recovered {
        NodeMetadata::Struct { name } => assert_eq!(name, "Config"),
        _ => panic!("Expected Struct"),
    }

    // Method
    let meta = NodeMetadata::Method {
        name: "run".to_string(),
        class_name: Some("Server".to_string()),
    };
    let json = meta.to_json();
    let recovered = NodeMetadata::from_json(&json, NodeType::Method).unwrap();
    match recovered {
        NodeMetadata::Method { name, class_name } => {
            assert_eq!(name, "run");
            assert_eq!(class_name.as_deref(), Some("Server"));
        }
        _ => panic!("Expected Method"),
    }

    // Chunk
    let meta = NodeMetadata::Chunk { index: 42 };
    let json = meta.to_json();
    let recovered = NodeMetadata::from_json(&json, NodeType::Chunk).unwrap();
    match recovered {
        NodeMetadata::Chunk { index } => assert_eq!(index, 42),
        _ => panic!("Expected Chunk"),
    }
}

#[test]
fn node_metadata_from_json_invalid_returns_none() {
    // Mismatched type: Section JSON parsed as Function
    let meta = NodeMetadata::Section {
        heading: "Intro".to_string(),
        level: 1,
    };
    let json = meta.to_json();
    // Parsing as Function should fail because "name" field is missing
    assert!(NodeMetadata::from_json(&json, NodeType::Function).is_none());

    // Invalid JSON
    assert!(NodeMetadata::from_json("not valid json", NodeType::Function).is_none());
}

#[test]
fn searchable_name_returns_correct_values() {
    assert_eq!(
        NodeMetadata::Function {
            name: "foo".to_string(),
            signature: None,
        }
        .searchable_name(),
        Some("foo")
    );
    assert_eq!(
        NodeMetadata::Class {
            name: "Bar".to_string(),
        }
        .searchable_name(),
        Some("Bar")
    );
    assert_eq!(
        NodeMetadata::Struct {
            name: "Baz".to_string(),
        }
        .searchable_name(),
        Some("Baz")
    );
    assert_eq!(
        NodeMetadata::Method {
            name: "run".to_string(),
            class_name: None,
        }
        .searchable_name(),
        Some("run")
    );
    assert_eq!(
        NodeMetadata::Section {
            heading: "Intro".to_string(),
            level: 1,
        }
        .searchable_name(),
        Some("Intro")
    );
    // These should return None
    assert!(NodeMetadata::Paragraph.searchable_name().is_none());
    assert!(NodeMetadata::CodeBlock { language: None }
        .searchable_name()
        .is_none());
    assert!(NodeMetadata::Chunk { index: 0 }.searchable_name().is_none());
}

#[test]
fn ref_type_as_str_and_parse_roundtrip() {
    let variants = [RefType::Call, RefType::Import, RefType::TypeRef];
    for variant in variants {
        let s = variant.as_str();
        let recovered = RefType::parse(s).unwrap();
        assert_eq!(recovered, variant);
    }
}

#[test]
fn ref_type_parse_unknown_returns_none() {
    assert!(RefType::parse("unknown").is_none());
    assert!(RefType::parse("").is_none());
}

#[test]
fn error_envelope_new_and_fields() {
    let env = ErrorEnvelope::new("test_code", "test message", "try again");
    assert_eq!(env.code, "test_code");
    assert_eq!(env.message, "test message");
    assert_eq!(env.hint, "try again");
}

#[test]
fn error_envelope_stale_generation() {
    let env = ErrorEnvelope::stale_generation(5, 3);
    assert_eq!(env.code, "stale_generation");
    assert!(env.message.contains("5"));
    assert!(env.message.contains("3"));
    assert!(env.hint.contains("reindex"));
}

#[test]
fn error_envelope_internal() {
    let env = ErrorEnvelope::internal("something broke");
    assert_eq!(env.code, "internal_error");
    assert_eq!(env.message, "something broke");
}

#[test]
fn canopy_error_display_invalid_handle() {
    let err = CanopyError::InvalidHandle("bad_id".to_string());
    let msg = err.to_string();
    assert!(msg.contains("bad_id"));
    assert!(msg.contains("Invalid handle"));
}

#[test]
fn canopy_error_display_stale_index() {
    let err = CanopyError::StaleIndex {
        path: "src/main.rs".to_string(),
    };
    let msg = err.to_string();
    assert!(msg.contains("src/main.rs"));
    assert!(msg.contains("reindex"));
}

#[test]
fn canopy_error_display_query_parse() {
    let err = CanopyError::QueryParse {
        position: 10,
        message: "unexpected token".to_string(),
    };
    let msg = err.to_string();
    assert!(msg.contains("10"));
    assert!(msg.contains("unexpected token"));
}

#[test]
fn canopy_error_display_stale_generation() {
    let err = CanopyError::StaleGeneration {
        expected: 5,
        found: 3,
    };
    let msg = err.to_string();
    assert!(msg.contains("5"));
    assert!(msg.contains("3"));
}

#[test]
fn canopy_error_display_service_error() {
    let err = CanopyError::ServiceError {
        code: "not_found".to_string(),
        message: "repo not found".to_string(),
        hint: "register it first".to_string(),
    };
    let msg = err.to_string();
    assert!(msg.contains("not_found"));
    assert!(msg.contains("repo not found"));
    assert!(msg.contains("register it first"));
}

#[test]
fn canopy_error_display_schema_version_mismatch() {
    let err = CanopyError::SchemaVersionMismatch {
        found: 1,
        expected: 3,
    };
    let msg = err.to_string();
    assert!(msg.contains("v1"));
    assert!(msg.contains("v3"));
    assert!(msg.contains("reindex"));
}

#[test]
fn test_generation_new() {
    let gen = Generation::new();
    assert_eq!(gen.value(), 0);
}

#[test]
fn test_generation_next() {
    let gen = Generation::new();
    let next = gen.next();
    assert_eq!(next.value(), 1);
    assert_eq!(next.next().value(), 2);
}

#[test]
fn test_generation_from_value() {
    let gen = Generation::from_value(42);
    assert_eq!(gen.value(), 42);
}

#[test]
fn test_generation_ordering() {
    let g1 = Generation::from_value(1);
    let g2 = Generation::from_value(2);
    assert!(g1 < g2);
}

#[test]
fn test_handle_id_creation() {
    let id1 = HandleId::new("src/main.rs", NodeType::Function, &(100..200));
    let id2 = HandleId::new("src/main.rs", NodeType::Function, &(100..200));
    let id3 = HandleId::new("src/main.rs", NodeType::Function, &(100..201));

    assert_eq!(id1, id2); // Same inputs = same ID
    assert_ne!(id1, id3); // Different span = different ID
}

#[test]
fn test_handle_id_display() {
    let id = HandleId::new("test.rs", NodeType::Section, &(0..10));
    let displayed = id.to_string();
    assert!(displayed.starts_with('h'));
    assert_eq!(displayed.len(), 25); // 'h' + 24 hex chars
}

#[test]
fn test_handle_id_parse() {
    let id = HandleId::new("test.rs", NodeType::Section, &(0..10));
    let displayed = id.to_string();

    // Parse with prefix
    let parsed: HandleId = displayed.parse().unwrap();
    assert_eq!(id, parsed);

    // Parse without prefix
    let parsed2: HandleId = id.raw().parse().unwrap();
    assert_eq!(id, parsed2);
}

#[test]
fn test_safe_slice() {
    let s = "Hello, 世界!";
    assert_eq!(safe_slice(s, 0, 5), "Hello");
    assert_eq!(safe_slice(s, 7, 13), "世界"); // Multi-byte chars
    assert_eq!(safe_slice(s, 0, 100), s); // Beyond end
    assert_eq!(safe_slice(s, 8, 10), ""); // Mid-char boundaries
}

#[test]
fn test_generate_preview() {
    let source = "fn main() {\n    println!(\"Hello\");\n}";
    let span = 0..source.len();

    let preview = generate_preview(source, &span, 20);
    assert!(preview.len() <= 23); // 20 + "..."
    assert!(preview.ends_with("..."));

    let short_preview = generate_preview(source, &span, 100);
    assert!(!short_preview.ends_with("..."));
}
