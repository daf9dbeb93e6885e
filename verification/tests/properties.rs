use wtcd::pipeline::sanitize_module_file_name;
use wtcd::rendering::render_debug;
use wtcd::knowledge::count_source_tokens;
use wtcd::mirror_io::{build_appendix_section, extract_appendix};
use wtcd::gate::check_rule_matches;
use wtcd::config::{FailRule, GateConfig};
use wtcd::depgraph::ReverseDepGraph;
use wtcd::gate::evaluate_gate;
use wtcd::index::{route_query, RoutingIndex, RoutingIndexEntry};
use wtcd::mirror_io::front_matter_yaml;
use wtcd::mirror_types::MirrorBody;
use wtcd::modules::rollup_drift_level;
use wtcd::template::mirror_text;
use wtcd::types::{
    ExportKind, ExportedSymbol, FunctionSignature, Parameter, AffectedArtifact, ChangeClass, ConfidenceBand, DependencyEdge, DriftReport, FileResult, ImportKind,
    MaterialChange, PolicyResult,
};

fn report(changes: Vec<MaterialChange>, artifacts: Vec<AffectedArtifact>) -> DriftReport {
    DriftReport {
        report_version: 1,
        report_id: "r".to_string(),
        repo_commit_before: "abc1234".to_string(),
        repo_commit_after: "working-tree".to_string(),
        generated_at: "2026-01-01T00:00:00Z".to_string(),
        drift_level: "material".to_string(),
        changed_files: vec![],
        affected_artifacts: artifacts,
        material_changes: changes,
        policy_result: PolicyResult {
            status: "pending".to_string(),
            failed_rules: vec![],
            failure_codes: None,
            recommendations: None,
        },
    }
}

fn change(class: ChangeClass, summary: &str) -> MaterialChange {
    MaterialChange {
        change_class: class,
        source_path: "src/a.ts".to_string(),
        summary: summary.to_string(),
        evidence: None,
    }
}

#[test]
fn gate_verdict_stable_under_reevaluation() {
    let config = GateConfig {
        fail_on: vec![FailRule { when: "c3".to_string(), code: "X-1".to_string() }],
        warn_on: vec![],
        systemic_threshold: 5,
    };
    let mut r = report(vec![change(ChangeClass::C3, "big")], vec![]);
    let first = evaluate_gate(&mut r, &config);
    let after_first = r.policy_result.clone();
    let second = evaluate_gate(&mut r, &config);
    assert_eq!(first, second);
    assert_eq!(after_first, r.policy_result);
    assert!(!first);
    assert_eq!(r.policy_result.status, "fail");
    assert_eq!(r.policy_result.failed_rules, vec!["fail_on:c3".to_string()]);
    assert_eq!(
        r.policy_result.failure_codes,
        Some(vec!["X-1".to_string(), "ANRSM-002".to_string()])
    );
}

#[test]
fn gate_without_fail_rules_passes_empty_report() {
    let config = GateConfig { fail_on: vec![], warn_on: vec![], systemic_threshold: 5 };
    let mut r = report(vec![], vec![]);
    assert!(evaluate_gate(&mut r, &config));
    assert_eq!(r.policy_result.status, "pass");
    assert_eq!(r.policy_result.failure_codes, None);
    assert_eq!(r.policy_result.recommendations, Some(vec!["No policy violations detected".to_string()]));
}

#[test]
fn gate_lists_stale_and_orphan_codes() {
    let config = GateConfig { fail_on: vec![], warn_on: vec![], systemic_threshold: 5 };
    let artifact = AffectedArtifact {
        artifact_id: "file:src/a.ts".to_string(),
        before_freshness: "fresh".to_string(),
        after_freshness: "stale".to_string(),
        drift_level: "C1".to_string(),
        reason: "changed".to_string(),
        recommended_action: None,
    };
    let mut r = report(vec![change(ChangeClass::C1, "source file deleted")], vec![artifact]);
    assert!(evaluate_gate(&mut r, &config));
    assert_eq!(r.policy_result.status, "warn");
    assert_eq!(
        r.policy_result.failure_codes,
        Some(vec!["ANRSM-003".to_string(), "ANRSM-004".to_string()])
    );
}

fn file(path: &str, imports: &[&str]) -> FileResult {
    FileResult {
        file_path: path.to_string(),
        confidence: ConfidenceBand::High,
        exports: vec![],
        imports: imports
            .iter()
            .map(|s| DependencyEdge { source: s.to_string(), symbols: vec![], kind: ImportKind::Named })
            .collect(),
        signatures: vec![],
        side_effects: vec![],
        parse_time_ms: 0,
        error_message: None,
    }
}

#[test]
fn importers_and_imports_agree() {
    let files = vec![
        file("src/a.ts", &["./b", "./c"]),
        file("src/b.ts", &["./c"]),
        file("src/c.ts", &[]),
    ];
    let graph = ReverseDepGraph::build(&files);
    for p in ["src/a.ts", "src/b.ts", "src/c.ts"] {
        for q in ["src/a.ts", "src/b.ts", "src/c.ts"] {
            let forward = graph.get_imports(p).contains(&q.to_string());
            let backward = graph.get_importers(q).contains(&p.to_string());
            assert_eq!(forward, backward, "{} -> {}", p, q);
        }
    }
    assert_eq!(graph.get_importers("src/c.ts"), vec!["src/a.ts".to_string(), "src/b.ts".to_string()]);
}

#[test]
fn rollup_ignores_order_and_repeats() {
    let a = rollup_drift_level(&[ChangeClass::C1, ChangeClass::C0, ChangeClass::C2]);
    let b = rollup_drift_level(&[ChangeClass::C2, ChangeClass::C2, ChangeClass::C1, ChangeClass::C0]);
    assert!(matches!(a, ChangeClass::C2));
    assert!(matches!(b, ChangeClass::C2));
    assert!(matches!(rollup_drift_level(&[ChangeClass::C0, ChangeClass::C0]), ChangeClass::C0));
}

#[test]
fn front_matter_reads_back() {
    let body = MirrorBody {
        responsibilities: "r".to_string(),
        external_contracts: "e".to_string(),
        preconditions: "p".to_string(),
        state_control_flow: "s".to_string(),
        side_effects: "x".to_string(),
        invariants_risks: "i --- not yaml".to_string(),
        change_impact: "c".to_string(),
        expand_conditions: "w".to_string(),
    };
    let yaml = "artifact_type: file_mirror\nsource_path: src/a.ts";
    let text = mirror_text(yaml, &body);
    assert_eq!(front_matter_yaml(&text), Some(format!("\n{}\n", yaml)));
}

fn entry(path: &str, keywords: &[&str], freshness: &str, confidence: &str) -> RoutingIndexEntry {
    RoutingIndexEntry {
        artifact_id: format!("file:{}", path),
        module_id: "m".to_string(),
        source_path: path.to_string(),
        exports: vec![],
        keywords: keywords.iter().map(|k| k.to_string()).collect(),
        dependencies: vec![],
        risk_tags: vec![],
        freshness: freshness.to_string(),
        confidence: confidence.to_string(),
    }
}

#[test]
fn route_results_come_best_first() {
    let index = RoutingIndex {
        api_version: "1".to_string(),
        entries: vec![
            entry("src/one.ts", &["auth"], "fresh", "high"),
            entry("src/two.ts", &["auth", "login"], "stale", "high"),
            entry("src/three.ts", &["auth", "login"], "fresh", "high"),
            entry("src/none.ts", &["billing"], "fresh", "high"),
        ],
    };
    let out = route_query("auth login", &index, 10);
    let paths: Vec<&str> = out.results.iter().map(|r| r.source_path.as_str()).collect();
    assert_eq!(paths, vec!["src/three.ts", "src/two.ts", "src/one.ts"]);
    assert_eq!(out.total_candidates, 3);
    assert!(out.results.iter().all(|r| r.matches > 0));
}

#[test]
fn module_mirror_paths_nest_by_segment() {
    assert_eq!(sanitize_module_file_name("billing/invoice"), "billing/invoice");
    assert_eq!(sanitize_module_file_name("../a//./b:c"), "a/b__c");
    assert_eq!(sanitize_module_file_name("x\\y"), "x/y");
    assert_eq!(sanitize_module_file_name("global"), "global");
}

#[test]
fn debug_rendering_matches_format() {
    let fr = FileResult {
        file_path: "src/a.ts".to_string(),
        confidence: ConfidenceBand::High,
        exports: vec![ExportedSymbol {
            name: "q\"x\n".to_string(),
            kind: ExportKind::Function,
            line: 12,
            is_generated: false,
            confidence: ConfidenceBand::Low,
        }],
        imports: vec![DependencyEdge { source: "./b".to_string(), symbols: vec!["y".to_string(), "z".to_string()], kind: ImportKind::Named }],
        signatures: vec![FunctionSignature {
            name: "f".to_string(),
            parameters: vec![Parameter { name: "a".to_string(), type_annotation: "number".to_string() }],
            return_type: "void".to_string(),
        }],
        side_effects: vec![],
        parse_time_ms: 0,
        error_message: None,
    };
    let expected = format!("{}:{:?}:{:?}:{:?}", fr.file_path, fr.exports, fr.imports, fr.signatures);
    assert_eq!(render_debug(&fr), expected);
    let empty = FileResult { exports: vec![], imports: vec![], signatures: vec![], ..fr.clone() };
    assert_eq!(render_debug(&empty), "src/a.ts:[]:[]:[]");
}

#[test]
fn source_tokens_counted_per_text() {
    let sources = vec![
        ("a.ts".to_string(), "export  const a = 1;\n".to_string()),
        ("b.ts".to_string(), "".to_string()),
        ("c.ts".to_string(), " x\ty ".to_string()),
    ];
    assert_eq!(count_source_tokens(&sources), Some(7));
}

#[test]
fn import_counts_agree_both_ways() {
    let files = vec![file("src/a.ts", &["./b", "./b"]), file("src/b.ts", &[])];
    let graph = ReverseDepGraph::build(&files);
    let importers = graph.get_importers("src/b.ts");
    let imports = graph.get_imports("src/a.ts");
    assert_eq!(importers.iter().filter(|p| *p == "src/a.ts").count(), 2);
    assert_eq!(imports.iter().filter(|q| *q == "src/b.ts").count(), 2);
    assert_eq!(graph.importer_count("src/b.ts"), 2);
}

#[test]
fn appendix_block_reads_back_trimmed() {
    let content = format!("{}{}", "# body\n", build_appendix_section("  my notes \n"));
    assert_eq!(extract_appendix(&content), Some("my notes".to_string()));
}

#[test]
fn registry_lists_extensions_per_language() {
    let registry = wtcd::registry::register_all_adapters();
    let adapters = registry.adapters();
    assert_eq!(adapters[0].extensions, vec!["ts", "tsx", "js", "jsx"]);
    assert_eq!(adapters[9].name, "cpp");
    assert_eq!(adapters[9].extensions, vec!["cpp", "cc", "cxx", "hpp", "h", "hh", "hxx"]);
}

#[test]
fn class_rules_ignore_case() {
    let changes = vec![change(ChangeClass::C2, "c")];
    assert!(check_rule_matches("C2", &changes, 5));
    assert!(check_rule_matches("c2", &changes, 5));
    assert!(!check_rule_matches("C3", &changes, 5));
}

#[test]
fn stale_entry_ranks_below_equal_fresh_entry() {
    let index = RoutingIndex {
        api_version: "1".to_string(),
        entries: vec![
            entry("src/a.ts", &["login"], "stale", "high"),
            entry("src/b.ts", &["login"], "fresh", "high"),
        ],
    };
    let out = route_query("login", &index, 10);
    let paths: Vec<&str> = out.results.iter().map(|r| r.source_path.as_str()).collect();
    assert_eq!(paths, vec!["src/b.ts", "src/a.ts"]);
    assert_eq!(out.results[1].freshness, "stale");
}

#[test]
fn aggregate_ignores_file_order() {
    let a = file("src/m/a.ts", &["./b", "lodash"]);
    let mut b = file("src/m/b.ts", &["react"]);
    b.confidence = ConfidenceBand::Low;
    b.exports = vec![ExportedSymbol {
        name: "B".to_string(),
        kind: ExportKind::Class,
        line: 1,
        is_generated: false,
        confidence: ConfidenceBand::High,
    }];
    let x = wtcd::modules::aggregate_module("src/m", &[&a, &b], None, None);
    let y = wtcd::modules::aggregate_module("src/m", &[&b, &a], None, None);
    assert_eq!(x.exports, y.exports);
    assert_eq!(x.dependencies, y.dependencies);
    assert_eq!(x.side_effects, y.side_effects);
    assert_eq!(x.language, y.language);
    assert_eq!(x.semantic_fingerprint, y.semantic_fingerprint);
    assert_eq!(x.responsibility, y.responsibility);
    assert_eq!(x.confidence, ConfidenceBand::Low);
    assert_eq!(y.confidence, ConfidenceBand::Low);
    assert_eq!(x.fan_out, y.fan_out);
    assert_eq!(x.files, vec!["src/m/a.ts".to_string(), "src/m/b.ts".to_string()]);
    assert_eq!(y.files, vec!["src/m/b.ts".to_string(), "src/m/a.ts".to_string()]);
}

#[test]
fn imports_counted_for_repeated_path() {
    let files = vec![file("src/a.ts", &["./b", "./c"]), file("src/a.ts", &["./d"]), file("src/b.ts", &["./c"])];
    let graph = ReverseDepGraph::build(&files);
    assert_eq!(graph.get_imports("src/a.ts").len(), 3);
    assert_eq!(graph.get_imports("src/b.ts").len(), 1);
    assert_eq!(graph.get_imports("src/c.ts").len(), 0);
}
