use wtcd::index::{build_routing_index, route_query};
use wtcd::types::{ConfidenceBand, DependencyEdge, ExportKind, ExportedSymbol, FileResult, ImportKind, SideEffect, SideEffectKind};

fn symbol(name: &str, line: u32) -> ExportedSymbol {
    ExportedSymbol { name: name.to_string(), kind: ExportKind::Function, line, is_generated: false, confidence: ConfidenceBand::High }
}

fn sample_file_results() -> Vec<FileResult> {
    vec![
        FileResult {
            file_path: "src/auth/login.ts".to_string(),
            confidence: ConfidenceBand::High,
            exports: vec![symbol("login", 1), symbol("logout", 10)],
            imports: vec![DependencyEdge {
                source: "src/core/http.ts".to_string(),
                symbols: vec!["fetch".to_string()],
                kind: ImportKind::Named,
            }],
            signatures: vec![],
            side_effects: vec![SideEffect { kind: SideEffectKind::Network, target: "auth api".to_string(), line: 5 }],
            parse_time_ms: 2,
            error_message: None,
        },
        FileResult {
            file_path: "src/utils/format.ts".to_string(),
            confidence: ConfidenceBand::High,
            exports: vec![symbol("formatDate", 1)],
            imports: vec![],
            signatures: vec![],
            side_effects: vec![],
            parse_time_ms: 1,
            error_message: None,
        },
        FileResult {
            file_path: "src/broken.ts".to_string(),
            confidence: ConfidenceBand::NoConfidence,
            exports: vec![],
            imports: vec![],
            signatures: vec![],
            side_effects: vec![],
            parse_time_ms: 0,
            error_message: Some("parse failed".to_string()),
        },
    ]
}

fn sample_module_ids() -> Vec<(String, String)> {
    vec![
        ("src/auth/login.ts".to_string(), "auth".to_string()),
        ("src/utils/format.ts".to_string(), "utils".to_string()),
    ]
}

#[test]
fn build_index_filters_none_confidence() {
    let index = build_routing_index(&sample_file_results(), &sample_module_ids());
    assert_eq!(index.api_version, "1");
    assert_eq!(index.entries.len(), 2);
}

#[test]
fn index_entry_has_correct_fields() {
    let index = build_routing_index(&sample_file_results(), &sample_module_ids());
    let auth_entry = index.entries.iter().find(|e| e.source_path == "src/auth/login.ts").unwrap();
    assert_eq!(auth_entry.artifact_id, "file_mirror:src/auth/login.ts");
    assert_eq!(auth_entry.module_id, "auth");
    assert_eq!(auth_entry.exports, vec!["login", "logout"]);
    assert!(auth_entry.keywords.contains(&"auth".to_string()));
    assert!(auth_entry.keywords.contains(&"login".to_string()));
    assert!(auth_entry.dependencies.contains(&"src/core/http.ts".to_string()));
    assert!(auth_entry.risk_tags.contains(&"external_api".to_string()));
    assert_eq!(auth_entry.freshness, "fresh");
    assert_eq!(auth_entry.confidence, "high");
}

#[test]
fn route_query_ranks_by_relevance() {
    let index = build_routing_index(&sample_file_results(), &sample_module_ids());
    let output = route_query("modify auth login", &index, 10);
    assert!(!output.results.is_empty());
    assert_eq!(output.results[0].source_path, "src/auth/login.ts");
    assert!(output.results[0].matches > 0);
}

#[test]
fn integration_route_route_query_no_match_returns_empty() {
    let index = build_routing_index(&sample_file_results(), &sample_module_ids());
    assert!(route_query("nonexistent xyz", &index, 10).results.is_empty());
}

#[test]
fn integration_route_route_query_top_k_limits() {
    let index = build_routing_index(&sample_file_results(), &sample_module_ids());
    assert!(route_query("src", &index, 1).results.len() <= 1);
}

#[test]
fn freshness_affects_score() {
    let mut index = build_routing_index(&sample_file_results(), &sample_module_ids());
    if let Some(entry) = index.entries.iter_mut().find(|e| e.source_path == "src/auth/login.ts") {
        entry.freshness = "stale".to_string();
    }
    let output = route_query("login", &index, 10);
    let login_result = output.results.iter().find(|r| r.source_path == "src/auth/login.ts").unwrap();
    let score = login_result.matches as f64 / login_result.query_tokens as f64 * 0.7 * 1.0;
    assert!(score < 1.0);
    assert_eq!(login_result.freshness, "stale");
}
