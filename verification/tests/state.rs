use canopy::capped_map::{CappedMap, CappedSet};
use canopy::config::{Config, IndexingConfig};
use canopy::document::NodeType;
use canopy::error::CanopyError;
use canopy::globs::check_pattern;
use canopy::handle::{HandleId, HandleSource};
use canopy::hashing::sha256;
use canopy::index::expand::{collect_details, expand_handle, ExpandRow};
use canopy::index::find_smallest_enclosing_node;
use canopy::index::pipeline::{
    meta_of, partition_candidates, read_outcome, Candidate, FileOutcome, IndexTally,
};
use canopy::index::search::{first_search, DbSearch, SearchStep};
use canopy::index::symbol_cache::{SymbolCache, SymbolCacheEntry};
use canopy::parse::bpe::estimate_tokens;
use canopy::parse::lines::parse_as_chunks;
use canopy::parse::try_parse_file;
use canopy::provenance::{HandleProvenance, ProvenanceTracker, PROVENANCE_CAP};
use canopy::query::execute::SearchRequest;
use canopy::query::parser::parse_query;
use canopy::query::{Query, QueryOptions, QueryParams};
use canopy::runtime::{choose_pack, next_pack_params, packs_at_service, QueryInput};
use canopy::strings::trim;

#[test]
fn a_removed_key_does_not_count() {
    let mut map = CappedMap::new(2);
    assert!(map.insert("a", 1));
    assert!(map.insert("b", 2));
    assert_eq!(map.remove(&"a"), Some(1));
    assert_eq!(map.remove(&"a"), None);
    assert!(map.insert("a", 3));
    assert_eq!(map.get(&"a"), Some(&3));
    assert_eq!(map.get(&"b"), Some(&2));
    assert_eq!(map.len(), 2);
    map.insert("c", 4);
    assert!(!map.contains_key(&"b"));
    assert_eq!(map.values(), vec![&3, &4]);
    map.clear();
    assert!(map.is_empty());
}

#[test]
fn an_empty_cap_holds_nothing() {
    let mut map = CappedMap::new(0);
    assert!(map.insert("a", 1));
    assert!(map.is_empty());
}

#[test]
fn retained_entries_have_the_values_that_were_left() {
    let mut map = CappedMap::new(3);
    map.insert("a", 1);
    map.insert("b", 2);
    map.insert("c", 3);
    map.retain(|k, v| {
        *v *= 10;
        *k != "b"
    });
    assert_eq!(map.values(), vec![&10, &30]);
    map.insert("b", 5);
    assert_eq!(map.values(), vec![&10, &30, &5]);
    let mut set = CappedSet::new(2);
    set.insert("a");
    set.insert("b");
    set.retain(|k| *k == "b");
    set.insert("c");
    assert!(set.contains(&"b") && set.contains(&"c") && !set.contains(&"a"));
    assert_eq!(set.len(), 2);
    assert!(!set.is_empty());
}

#[test]
fn a_forgotten_handle_is_found_once_recorded_again() {
    let provenance = || HandleProvenance {
        source: HandleSource::Service,
        generation: Some(1),
        repo_id: Some("r".to_string()),
        file_path: "a.rs".to_string(),
        node_type: NodeType::Function,
        token_count: 1,
    };
    let mut tracker = ProvenanceTracker::new();
    tracker.record("repo", "h0", provenance());
    tracker.invalidate_repo("r");
    assert!(tracker.get("repo", "h0").is_none());
    for i in 1..PROVENANCE_CAP.min(200) {
        tracker.record("repo", &format!("h{}", i), provenance());
    }
    tracker.record("repo", "h0", provenance());
    assert!(tracker.get("repo", "h0").is_some());
}

#[test]
fn chunks_count_the_bytes_of_line_ends() {
    let nodes = parse_as_chunks("a\r\nb\r\nc\r\n", 1, 0);
    let spans: Vec<_> = nodes.iter().map(|n| n.span.clone()).collect();
    assert_eq!(spans, vec![0..3, 3..6, 6..9]);
    let ranges: Vec<_> = nodes.iter().map(|n| n.line_range).collect();
    assert_eq!(ranges, vec![(1, 1), (2, 2), (3, 3)]);
    let source = "é\r\nüü\nz";
    let texts: Vec<_> =
        parse_as_chunks(source, 1, 0).iter().map(|n| &source[n.span.clone()]).collect();
    assert_eq!(texts, vec!["é\r\n", "üü\n", "z"]);
}

#[test]
fn ids_are_read_with_or_without_prefix() {
    let id = HandleId::new("src/main.rs", NodeType::Function, &(0..1));
    let shown: HandleId = id.to_string().parse().unwrap();
    let raw: HandleId = id.raw().parse().unwrap();
    assert_eq!(shown.raw(), id.raw());
    assert_eq!(raw.raw(), id.raw());
    let bad: Result<HandleId, CanopyError> = "hxyz".parse();
    assert!(matches!(bad, Err(CanopyError::InvalidHandle(m)) if m == "Invalid handle ID: xyz"));
    let twice: Result<HandleId, CanopyError> = "hh1".parse();
    assert!(twice.is_err());
}

#[test]
fn a_reversed_span_encloses_nothing() {
    let nodes = vec![(9..3, 1), (0..20, 2), (2..12, 3)];
    assert_eq!(find_smallest_enclosing_node(&(4..6), &nodes), Some(3));
    assert_eq!(find_smallest_enclosing_node(&(30..31), &nodes), None);
}

#[test]
fn time_to_live_of_the_indexing_section_counts() {
    let config = Config {
        indexing: IndexingConfig {
            ttl: Some("24h".to_string()),
            ..IndexingConfig::default()
        },
        ..Config::default()
    };
    assert_eq!(config.ttl_text(), "24h");
    assert_eq!(config.ttl_duration(), 86400);
    assert_eq!(Config::default().ttl_text(), "1h");
}

#[test]
fn a_list_is_expanded_whole_or_not_at_all() {
    let row = |source: &str| {
        Some(ExpandRow {
            path: "a.rs".to_string(),
            start: 0,
            end: 2,
            node_type: 3,
            token_count: 1,
            content_hash: sha256(source.as_bytes()).to_vec(),
        })
    };
    let one = || expand_handle("h0a", row("fn f"), "fn f");
    let two = || expand_handle("0b", row("xyz"), "xyz");
    let list = collect_details(vec![one(), two()]).unwrap();
    assert_eq!(list[0].handle_id, "h0a");
    assert_eq!(list[0].content, "fn");
    assert_eq!(list[1].handle_id, "h0b");
    assert_eq!(list[1].content, "xy");
    let stale = || expand_handle("h0a", row("old"), "new");
    let missing = || expand_handle("h0c", None, "");
    let malformed = || expand_handle("oops", row("fn f"), "fn f");
    assert!(matches!(stale(), Err(CanopyError::StaleIndex { path }) if path == "a.rs"));
    assert!(matches!(
        collect_details(vec![one(), missing(), stale()]),
        Err(CanopyError::HandleNotFound(id)) if id == "h0c"
    ));
    assert!(matches!(
        collect_details(vec![malformed(), missing()]),
        Err(CanopyError::InvalidHandle(_))
    ));
    assert!(collect_details(vec![]).unwrap().is_empty());
}

#[test]
fn the_cache_is_asked_before_the_database() {
    let mut cache = SymbolCache::new();
    let entry = SymbolCacheEntry {
        handle_id: "1".to_string(),
        file_path: "a.rs".to_string(),
        node_type: 3,
        start_byte: 0,
        end_byte: 1,
        line_start: 1,
        line_end: 1,
        token_count: 1,
        preview: "p".to_string(),
    };
    cache.add_to_symbol_cache(&vec![("foo".to_string(), entry)]);
    let code = |symbol: &str| SearchRequest::Code {
        symbol: symbol.to_string(),
        limit: 5,
    };
    assert!(matches!(
        first_search(&cache, &code("Foo")),
        SearchStep::Found(handles) if handles.len() == 1 && handles[0].id.raw() == "1"
    ));
    assert!(matches!(
        first_search(&cache, &code("bar")),
        SearchStep::Ask(DbSearch::Symbol { name_lower, limit: 5 }) if name_lower == "bar"
    ));
    let text = SearchRequest::Text {
        pattern: "foo".to_string(),
        limit: 5,
    };
    assert!(matches!(
        first_search(&cache, &text),
        SearchStep::Ask(DbSearch::Content { query, limit: 5 }) if query == "foo"
    ));
    let file = SearchRequest::File {
        path: "[".to_string(),
    };
    assert!(matches!(
        first_search(&cache, &file),
        SearchStep::Refused(CanopyError::GlobPattern(_))
    ));
    assert!(check_pattern("[").is_some());
    assert!(check_pattern("**/*.rs").is_none());
}

#[test]
fn a_fallback_pack_is_tried_and_chosen() {
    let fallback = || Some(QueryParams::pattern("x"));
    assert!(next_pack_params(0, fallback()).is_some());
    assert!(next_pack_params(1, fallback()).is_none());
    assert!(next_pack_params(0, None).is_none());
    assert_eq!(choose_pack("first", "fallback", 2), "fallback");
    assert_eq!(choose_pack("first", "fallback", 0), "first");
    let params = QueryInput::Params(QueryParams::pattern("x"));
    let dsl = QueryInput::Dsl("(grep \"x\")".to_string(), QueryOptions::new());
    assert!(packs_at_service(true, &params));
    assert!(!packs_at_service(true, &dsl));
    assert!(!packs_at_service(false, &params));
}

#[test]
fn indexing_again_skips_what_was_indexed() {
    let config = Config::default();
    let source = "fn f() {}";
    let outcome = read_outcome("a.rs", source, &config, &None, 7);
    let FileOutcome::Parsed(parsed) = outcome else {
        panic!("a new file is parsed");
    };
    let mut first = IndexTally::new();
    first.index(parsed.total_tokens);
    let meta = meta_of(&parsed, 100);
    assert_eq!(meta.mtime, 7);
    assert_eq!(meta.hash, sha256(source.as_bytes()).to_vec());
    assert_eq!(meta.indexed_at, 100);
    let again = vec![Candidate {
        mtime: 7,
        meta: Some(meta),
    }];
    let second = partition_candidates(&again, 150, 3600);
    assert!(second.to_read.is_empty());
    assert_eq!(second.tally.files_skipped, 1);
    let (before, after) = (first.stats(0), second.tally.stats(0));
    assert_eq!(after.files_indexed, 0);
    assert_eq!(after.total_tokens, before.total_tokens);
    let late = partition_candidates(&again, 9000, 3600);
    assert_eq!(late.to_read, vec![0]);
    assert!(matches!(
        read_outcome("a.rs", source, &config, &again[0].meta, 7),
        FileOutcome::Unchanged(tokens) if tokens == before.total_tokens
    ));
}

#[test]
fn written_queries_are_read_back() {
    let read = |s: &str| parse_query(s).unwrap();
    assert!(matches!(
        read("(grep \"a \\\"b\\\" \\\\c\")"),
        Query::Grep(t) if t == "a \"b\" \\c"
    ));
    assert!(matches!(
        read("(limit\t12\n(in-file  \"*.rs\" (children-named \"P\"\r\n\"s\")))"),
        Query::Limit(12, sub) if matches!(&*sub, Query::InFile(g, q) if g == "*.rs"
            && matches!(&**q, Query::ChildrenNamed(p, s) if p == "P" && s == "s"))
    ));
    assert!(matches!(read("(union)"), Query::Union(qs) if qs.is_empty()));
    assert!(matches!(
        read("(intersect (code \"x\")  (references \"y\"))"),
        Query::Intersect(qs) if qs.len() == 2
            && matches!(&qs[0], Query::Code(s) if s == "x")
            && matches!(&qs[1], Query::References(s) if s == "y")
    ));
}

#[test]
fn wide_whitespace_divides_tokens() {
    assert!(matches!(
        parse_query("\u{3000}(grep\u{a0}\"x\")\u{2003}"),
        Ok(Query::Grep(t)) if t == "x"
    ));
    assert!(matches!(
        parse_query("(größe \"x\")"),
        Err(CanopyError::QueryParse { message, .. }) if message == "Unknown operator: größe"
    ));
}

#[test]
fn a_large_text_with_windows_line_ends_can_be_cut() {
    let config = Config {
        indexing: IndexingConfig {
            chunk_threshold: 3,
            chunk_lines: 2,
            chunk_overlap: 1,
            ..IndexingConfig::default()
        },
        ..Config::default()
    };
    let source = "é\r\nü\r\nö\r\n";
    let parsed = try_parse_file("notes.txt", source, &config, 0).unwrap();
    let texts: Vec<_> = parsed.nodes.iter().map(|n| &source[n.span.clone()]).collect();
    assert_eq!(texts, vec!["é\r\nü\r\n", "ü\r\nö\r\n", "ö\r\n"]);
}

#[test]
fn whitespace_is_what_unicode_lists() {
    let listed = |c: u32| {
        matches!(c, 0x9..=0xd | 0x20 | 0x85 | 0xa0 | 0x1680 | 0x2000..=0x200a)
            || matches!(c, 0x2028 | 0x2029 | 0x202f | 0x205f | 0x3000)
    };
    for c in '\0'..=char::MAX {
        assert_eq!(trim(&c.to_string()).is_empty(), listed(c as u32), "{:?}", c);
        if listed(c as u32) {
            let written = format!("{c}({c}limit{c}3{c}(grep{c}\"x\"{c}){c}){c}");
            assert!(matches!(parse_query(&written), Ok(Query::Limit(3, _))), "{:?}", c);
        }
    }
}

#[test]
fn gaps_can_be_missing_but_before_a_number() {
    assert!(matches!(parse_query("(grep\"x\")"), Ok(Query::Grep(t)) if t == "x"));
    assert!(matches!(
        parse_query("( union (code\"a\")(file\"b\") )"),
        Ok(Query::Union(qs)) if qs.len() == 2
    ));
    assert!(matches!(
        parse_query("(children-named\"p\"\"s\")"),
        Ok(Query::ChildrenNamed(p, s)) if p == "p" && s == "s"
    ));
    assert!(matches!(parse_query("(limit 2(grep \"x\"))"), Ok(Query::Limit(2, _))));
    assert!(matches!(
        parse_query("(limit2 (grep \"x\"))"),
        Err(CanopyError::QueryParse { message, .. }) if message == "Unknown operator: limit2"
    ));
}

#[test]
fn defaults_live_for_an_hour() {
    let config = Config::default();
    assert!(config.indexing.ttl.is_none());
    assert_eq!(config.ttl_duration(), 3600);
}

#[test]
fn a_text_has_tokens_but_no_more_than_bytes() {
    let texts =
        ["a", " ", "\n", "\r\n\t ", "'", "fn main() {}", "größe", "越", "<|endoftext|>", "\u{0}"];
    for text in texts {
        let tokens = estimate_tokens(text);
        assert!(0 < tokens && tokens <= text.len(), "{:?}: {}", text, tokens);
    }
    assert_eq!(estimate_tokens(""), 0);
}
