use wtcd::index::{
    build_routing_index, derive_risk_tags, extract_keywords, route_query, split_camel_case, tokenize_query,
    RouteResult, RoutingIndex,
};
use wtcd::types::{
    ConfidenceBand, DependencyEdge, ExportKind, ExportedSymbol, FileResult, ImportKind, SideEffect, SideEffectKind,
};

fn symbol(name: &str, line: u32) -> ExportedSymbol {
    ExportedSymbol {
        name: name.to_string(),
        kind: ExportKind::Function,
        line,
        is_generated: false,
        confidence: ConfidenceBand::High,
    }
}

fn relevance(r: &RouteResult, freshness_weight: f64, confidence_weight: f64) -> f64 {
    r.matches as f64 / r.query_tokens as f64 * freshness_weight * confidence_weight
}

// ── Keyword extraction ──

#[test]
fn extract_keywords_snake_case_path() {
    let keywords = extract_keywords("src/user_profile.ts", &[], "global");
    assert!(keywords.contains(&"src".to_string()));
    assert!(keywords.contains(&"user".to_string()));
    assert!(keywords.contains(&"profile".to_string()));
    assert!(keywords.contains(&"ts".to_string()));
}

#[test]
fn extract_keywords_camel_case_exports() {
    let exports = vec!["parseAuthTokens".to_string()];
    let keywords = extract_keywords("src/auth.ts", &exports, "auth");
    assert!(keywords.contains(&"parse".to_string()));
    assert!(keywords.contains(&"auth".to_string()));
    assert!(keywords.contains(&"tokens".to_string()));
}

#[test]
fn extract_keywords_nested_path() {
    let keywords = extract_keywords("src/auth/login.ts", &[], "global");
    assert!(keywords.contains(&"src".to_string()));
    assert!(keywords.contains(&"auth".to_string()));
    assert!(keywords.contains(&"login".to_string()));
}

#[test]
fn extract_keywords_deduplicates() {
    let exports = vec!["login".to_string()];
    let keywords = extract_keywords("src/auth/login.ts", &exports, "auth");
    let login_count = keywords.iter().filter(|k| *k == "login").count();
    assert_eq!(login_count, 1);
}

#[test]
fn extract_keywords_sorted_exact() {
    let exports = vec!["formatDate".to_string(), "HTTP_client".to_string()];
    let keywords = extract_keywords("src/utils/date-fns.ts", &exports, "utils");
    assert_eq!(
        keywords,
        vec!["client", "date", "fns", "format", "h", "p", "src", "t", "ts", "utils"]
            .into_iter()
            .map(String::from)
            .collect::<Vec<_>>()
    );
}

#[test]
fn split_camel_case_examples() {
    assert_eq!(split_camel_case("parseAuthTokens"), vec!["parse", "auth", "tokens"]);
    assert_eq!(split_camel_case("snake_case-name"), vec!["snake", "case", "name"]);
    assert_eq!(split_camel_case("HTTPServer"), vec!["h", "t", "t", "p", "server"]);
    assert_eq!(split_camel_case("__"), Vec::<String>::new());
}

// ── Risk tags ──

#[test]
fn derive_risk_tags_maps_correctly() {
    let side_effects = vec![
        SideEffect { kind: SideEffectKind::Network, target: "api".to_string(), line: 1 },
        SideEffect { kind: SideEffectKind::Io, target: "fs".to_string(), line: 2 },
    ];
    let tags = derive_risk_tags(&side_effects);
    assert!(tags.contains(&"external_api".to_string()));
    assert!(tags.contains(&"file_io".to_string()));
    assert_eq!(tags.len(), 2);
}

#[test]
fn derive_risk_tags_deduplicates() {
    let side_effects = vec![
        SideEffect { kind: SideEffectKind::Network, target: "api1".to_string(), line: 1 },
        SideEffect { kind: SideEffectKind::Network, target: "api2".to_string(), line: 2 },
    ];
    let tags = derive_risk_tags(&side_effects);
    assert_eq!(tags.len(), 1);
    assert!(tags.contains(&"external_api".to_string()));
}

#[test]
fn derive_risk_tags_sorted() {
    let side_effects = vec![
        SideEffect { kind: SideEffectKind::Storage, target: "db".to_string(), line: 1 },
        SideEffect { kind: SideEffectKind::Log, target: "log".to_string(), line: 2 },
        SideEffect { kind: SideEffectKind::Network, target: "api".to_string(), line: 3 },
    ];
    assert_eq!(derive_risk_tags(&side_effects), vec!["external_api", "logging", "persistence"]);
}

// ── Building the index ──

fn sample_file_results() -> Vec<FileResult> {
    vec![
        FileResult {
            file_path: "src/auth/login.ts".to_string(),
            confidence: ConfidenceBand::High,
            exports: vec![symbol("login", 1), symbol("logout", 10)],
            imports: vec![DependencyEdge {
                source: "src/core/http.ts".to_string(),
                symbols: vec!["fetch".to_string()],
                kind: ImportKind::Named,
            }],
            signatures: vec![],
            side_effects: vec![SideEffect {
                kind: SideEffectKind::Network,
                target: "auth api".to_string(),
                line: 5,
            }],
            parse_time_ms: 2,
            error_message: None,
        },
        FileResult {
            file_path: "src/utils/format.ts".to_string(),
            confidence: ConfidenceBand::High,
            exports: vec![symbol("formatDate", 1)],
            imports: vec![],
            signatures: vec![],
            side_effects: vec![],
            parse_time_ms: 1,
            error_message: None,
        },
        FileResult {
            file_path: "src/broken.ts".to_string(),
            confidence: ConfidenceBand::NoConfidence,
            exports: vec![],
            imports: vec![],
            signatures: vec![],
            side_effects: vec![],
            parse_time_ms: 0,
            error_message: Some("parse failed".to_string()),
        },
    ]
}

fn sample_module_ids() -> Vec<(String, String)> {
    vec![
        ("src/auth/login.ts".to_string(), "auth".to_string()),
        ("src/utils/format.ts".to_string(), "utils".to_string()),
    ]
}

fn single(path: &str, confidence: ConfidenceBand) -> FileResult {
    FileResult {
        file_path: path.to_string(),
        confidence,
        exports: vec![symbol("foo", 1)],
        imports: vec![],
        signatures: vec![],
        side_effects: vec![],
        parse_time_ms: 0,
        error_message: None,
    }
}

#[test]
fn build_routing_index_filters_none_confidence() {
    let results = sample_file_results();
    let module_ids = sample_module_ids();
    let index = build_routing_index(&results, &module_ids);
    assert_eq!(index.api_version, "1");
    assert_eq!(index.entries.len(), 2);
}

#[test]
fn build_routing_index_entry_fields() {
    let results = sample_file_results();
    let module_ids = sample_module_ids();
    let index = build_routing_index(&results, &module_ids);

    let auth_entry = index.entries.iter().find(|e| e.source_path == "src/auth/login.ts").unwrap();

    assert_eq!(auth_entry.artifact_id, "file_mirror:src/auth/login.ts");
    assert_eq!(auth_entry.module_id, "auth");
    assert_eq!(auth_entry.exports, vec!["login", "logout"]);
    assert!(auth_entry.keywords.contains(&"auth".to_string()));
    assert!(auth_entry.keywords.contains(&"login".to_string()));
    assert!(auth_entry.dependencies.contains(&"src/core/http.ts".to_string()));
    assert!(auth_entry.risk_tags.contains(&"external_api".to_string()));
    assert_eq!(auth_entry.freshness, "fresh");
    assert_eq!(auth_entry.confidence, "high");
}

#[test]
fn build_routing_index_default_module_id() {
    let results = vec![FileResult {
        file_path: "root.ts".to_string(),
        confidence: ConfidenceBand::High,
        exports: vec![],
        imports: vec![],
        signatures: vec![],
        side_effects: vec![],
        parse_time_ms: 0,
        error_message: None,
    }];
    let module_ids = Vec::new();
    let index = build_routing_index(&results, &module_ids);
    assert_eq!(index.entries[0].module_id, "global");
}

#[test]
fn build_routing_index_last_module_id_counts() {
    let results = vec![single("a.ts", ConfidenceBand::Low)];
    let module_ids = vec![
        ("a.ts".to_string(), "first".to_string()),
        ("a.ts".to_string(), "second".to_string()),
    ];
    let index = build_routing_index(&results, &module_ids);
    assert_eq!(index.entries[0].module_id, "second");
    assert_eq!(index.entries[0].confidence, "low");
}

// ── Route queries ──

#[test]
fn route_query_exact_match() {
    let index = build_routing_index(&sample_file_results(), &sample_module_ids());
    let output = route_query("login", &index, 10);
    assert!(!output.results.is_empty());
    assert_eq!(output.results[0].source_path, "src/auth/login.ts");
}

#[test]
fn route_query_partial_match() {
    let index = build_routing_index(&sample_file_results(), &sample_module_ids());
    let output = route_query("auth login", &index, 10);
    assert!(!output.results.is_empty());
    assert_eq!(output.results[0].source_path, "src/auth/login.ts");
    assert_eq!(relevance(&output.results[0], 1.0, 1.0), 1.0);
}

#[test]
fn index_route_query_no_match_returns_empty() {
    let index = build_routing_index(&sample_file_results(), &sample_module_ids());
    let output = route_query("nonexistent xyz", &index, 10);
    assert!(output.results.is_empty());
}

#[test]
fn route_query_freshness_affects_score() {
    let mut index = build_routing_index(&sample_file_results(), &sample_module_ids());
    if let Some(entry) = index.entries.iter_mut().find(|e| e.source_path == "src/auth/login.ts") {
        entry.freshness = "stale".to_string();
    }
    let output = route_query("login", &index, 10);
    let login_result = output.results.iter().find(|r| r.source_path == "src/auth/login.ts");
    assert!(login_result.is_some());
    assert!((relevance(login_result.unwrap(), 0.7, 1.0) - 0.7).abs() < f64::EPSILON);
}

#[test]
fn route_query_tie_break_confidence() {
    let results = vec![single("a.ts", ConfidenceBand::High), single("b.ts", ConfidenceBand::Low)];
    let index = build_routing_index(&results, &Vec::new());
    let output = route_query("foo", &index, 10);
    assert_eq!(output.results.len(), 2);
    assert_eq!(output.results[0].confidence, "high");
}

#[test]
fn route_query_tie_break_alphabetical() {
    let results = vec![single("z.ts", ConfidenceBand::High), single("a.ts", ConfidenceBand::High)];
    let index = build_routing_index(&results, &Vec::new());
    let output = route_query("foo", &index, 10);
    assert_eq!(output.results.len(), 2);
    assert_eq!(output.results[0].source_path, "a.ts");
    assert_eq!(output.results[1].source_path, "z.ts");
}

#[test]
fn index_route_query_top_k_limits() {
    let index = build_routing_index(&sample_file_results(), &sample_module_ids());
    let output = route_query("src", &index, 1);
    assert!(output.results.len() <= 1);
    assert_eq!(output.total_candidates, 2);
}

#[test]
fn route_query_top_k_zero_returns_empty() {
    let index = build_routing_index(&sample_file_results(), &sample_module_ids());
    let output = route_query("auth", &index, 0);
    assert!(output.results.is_empty());
}

#[test]
fn route_query_case_insensitive() {
    let index = build_routing_index(&sample_file_results(), &sample_module_ids());
    let output = route_query("Auth", &index, 10);
    assert!(!output.results.is_empty());
    assert!(output.results.iter().any(|r| r.source_path == "src/auth/login.ts"));
}

#[test]
fn route_query_compound_keyword_match() {
    let index = build_routing_index(&sample_file_results(), &sample_module_ids());
    let output = route_query("format", &index, 10);
    assert!(output.results.iter().any(|r| r.source_path == "src/utils/format.ts"));
}

#[test]
fn route_query_counts_repeated_tokens() {
    let index = build_routing_index(&sample_file_results(), &sample_module_ids());
    let output = route_query("login login xyz", &index, 10);
    assert_eq!(output.total_candidates, 1);
    assert_eq!(output.results[0].matches, 2);
    assert_eq!(output.results[0].query_tokens, 3);
    assert_eq!(output.query, "login login xyz");
    assert_eq!(output.api_version, "1");
}

#[test]
fn route_query_empty_query() {
    let index = build_routing_index(&sample_file_results(), &sample_module_ids());
    let output = route_query("  ./_ ", &index, 10);
    assert_eq!(output.total_candidates, 0);
    assert!(output.results.is_empty());
}

#[test]
fn route_query_score_beats_confidence() {
    let mut low_two = single("b.ts", ConfidenceBand::Low);
    low_two.exports.push(symbol("bar", 2));
    let results = vec![single("a.ts", ConfidenceBand::High), low_two];
    let index = RoutingIndex {
        api_version: "1".to_string(),
        entries: build_routing_index(&results, &Vec::new()).entries,
    };
    // a: 1 match, high (score 1*10*2 = 20); b: 2 matches, low (score 2*10*1 = 20): tie on score,
    // so the higher confidence comes first.
    let output = route_query("foo bar", &index, 10);
    assert_eq!(output.results[0].source_path, "a.ts");
    assert_eq!(output.results[1].source_path, "b.ts");
}

// ── Tokenizer ──

#[test]
fn tokenize_query_basic() {
    assert_eq!(tokenize_query("modify auth logic"), vec!["modify", "auth", "logic"]);
}

#[test]
fn tokenize_query_with_punctuation() {
    assert_eq!(tokenize_query("update user.profile.ts"), vec!["update", "user", "profile", "ts"]);
}

#[test]
fn tokenize_query_lowercases_and_drops_empty() {
    assert_eq!(tokenize_query("  Foo--Bar//baz_QUX "), vec!["foo", "bar", "baz", "qux"]);
    assert_eq!(tokenize_query(""), Vec::<String>::new());
}
