use wtcd::analyzer::{analyze_drift, analyze_drift_with};
use wtcd::classifier::classify_change;
use wtcd::config::{FailRule, GateConfig};
use wtcd::depgraph::ReverseDepGraph;
use wtcd::diff_types::{ChangedFile, DiffResult, FileStatus};
use wtcd::fingerprint::{compute_semantic_fingerprint, compute_source_fingerprint};
use wtcd::gate::{evaluate_gate, get_exit_code};
use wtcd::mirror_types::{FreshnessState, MirrorConfidenceBand, MirrorHeader};
use wtcd::types::{
    ChangeClass, ConfidenceBand, DependencyEdge, DriftReport, ExportKind, ExportedSymbol, FileResult, ImportKind,
    MaterialChange, PolicyResult,
};

fn make_file_result(path: &str, imports: Vec<(&str, Vec<&str>)>) -> FileResult {
    FileResult {
        file_path: path.to_string(),
        confidence: ConfidenceBand::High,
        exports: vec![],
        imports: imports
            .into_iter()
            .map(|(source, symbols)| DependencyEdge {
                source: source.to_string(),
                symbols: symbols.into_iter().map(|s| s.to_string()).collect(),
                kind: ImportKind::Named,
            })
            .collect(),
        signatures: vec![],
        side_effects: vec![],
        parse_time_ms: 0,
        error_message: None,
    }
}

fn header_for(path: &str, source_fp: &str, semantic_fp: &str, exports: Option<Vec<String>>) -> MirrorHeader {
    MirrorHeader {
        anrsm_version: 1,
        artifact_type: "file_mirror".to_string(),
        artifact_id: format!("file_mirror:{path}"),
        source_path: path.to_string(),
        source_language: "typescript".to_string(),
        module_id: "src".to_string(),
        source_commit: "abc1234".to_string(),
        source_fingerprint: source_fp.to_string(),
        semantic_fingerprint: semantic_fp.to_string(),
        freshness_state: FreshnessState::Fresh,
        confidence_band: MirrorConfidenceBand::High,
        generator_name: "anrsm".to_string(),
        generator_version: "0.1.0".to_string(),
        generated_at: "2026-01-01T00:00:00Z".to_string(),
        exports,
        dependencies: None,
        risk_tags: None,
        contracts: None,
        adjacent_artifacts: None,
        manual_appendix_present: None,
    }
}

fn report_with(changes: Vec<MaterialChange>) -> DriftReport {
    DriftReport {
        report_version: 1,
        report_id: "test".to_string(),
        repo_commit_before: "abc1234".to_string(),
        repo_commit_after: "working-tree".to_string(),
        generated_at: "2026-01-01T00:00:00Z".to_string(),
        drift_level: "material".to_string(),
        changed_files: vec!["src/test.ts".to_string()],
        affected_artifacts: vec![],
        material_changes: changes,
        policy_result: PolicyResult {
            status: "pending".to_string(),
            failed_rules: vec![],
            failure_codes: None,
            recommendations: None,
        },
    }
}

#[test]
fn test_analyze_no_changes() {
    let diff = DiffResult { changed_files: vec![], head_commit: "abc1234".to_string(), is_clean: true };
    let report = analyze_drift(&diff, &vec![], &vec![], &vec![], 5);
    assert_eq!(report.drift_level, "none");
    assert!(report.material_changes.is_empty());
    assert_eq!(report.report_id.len(), 36);
    assert_eq!(report.policy_result.status, "pending");
}

#[test]
fn test_analyze_neighbor_expansion() {
    let files = vec![
        make_file_result("src/app.ts", vec![("./utils", vec!["helper"])]),
        make_file_result("src/utils.ts", vec![]),
    ];
    let diff = DiffResult {
        changed_files: vec![ChangedFile { path: "src/utils.ts".to_string(), status: FileStatus::Modified }],
        head_commit: "abc1234".to_string(),
        is_clean: false,
    };
    let report = analyze_drift(&diff, &files, &vec!["export const x = 1;".to_string()], &vec![None], 5);
    let neighbor_artifacts: Vec<_> = report.affected_artifacts.iter().filter(|a| a.artifact_id.contains("app.ts")).collect();
    assert!(!neighbor_artifacts.is_empty());
    assert_eq!(neighbor_artifacts[0].drift_level, "low");
    assert_eq!(neighbor_artifacts[0].reason, "Imports a changed file");
}

#[test]
fn test_gate_warn_only_default() {
    let config = GateConfig::default();
    let mut report = report_with(vec![MaterialChange {
        change_class: ChangeClass::C2,
        source_path: "src/test.ts".to_string(),
        summary: "Contract change".to_string(),
        evidence: None,
    }]);
    let passed = evaluate_gate(&mut report, &config);
    assert!(passed);
    assert_eq!(report.policy_result.status, "warn");
    assert_eq!(get_exit_code(passed), 0);
}

#[test]
fn test_gate_fail_on_c2() {
    let config = GateConfig {
        fail_on: vec![FailRule { when: "C2".to_string(), code: "ANRSM-001".to_string() }],
        warn_on: vec![],
        systemic_threshold: 5,
    };
    let mut report = report_with(vec![MaterialChange {
        change_class: ChangeClass::C2,
        source_path: "src/test.ts".to_string(),
        summary: "Contract change".to_string(),
        evidence: None,
    }]);
    let passed = evaluate_gate(&mut report, &config);
    assert!(!passed);
    assert_eq!(report.policy_result.status, "fail");
    assert_eq!(get_exit_code(passed), 1);
    assert!(report.policy_result.failure_codes.as_ref().unwrap().contains(&"ANRSM-001".to_string()));
}

#[test]
fn test_depgraph_integration() {
    let files = vec![
        make_file_result("src/app.ts", vec![("./utils", vec!["helper"])]),
        make_file_result("src/handler.ts", vec![("./utils", vec!["helper"])]),
        make_file_result("src/utils.ts", vec![]),
    ];
    let graph = ReverseDepGraph::build(&files);
    assert_eq!(graph.importer_count("src/utils.ts"), 2);
    assert_eq!(graph.importer_count("src/app.ts"), 0);
    let affected = graph.expand_affected(&vec!["src/utils.ts".to_string()]);
    assert!(affected.contains(&"src/app.ts".to_string()));
    assert!(affected.contains(&"src/handler.ts".to_string()));
    assert!(!affected.contains(&"src/utils.ts".to_string()));
}

#[test]
fn analyze_drift_report_exact() {
    let files = vec![
        make_file_result("src/app.ts", vec![("./utils", vec!["helper"])]),
        make_file_result("src/utils.ts", vec![]),
    ];
    let diff = DiffResult {
        changed_files: vec![
            ChangedFile { path: "src/utils.ts".to_string(), status: FileStatus::Deleted },
            ChangedFile { path: "src/new.ts".to_string(), status: FileStatus::Added },
        ],
        head_commit: "abc1234".to_string(),
        is_clean: false,
    };
    let report = analyze_drift_with(
        &diff,
        &files,
        &vec![String::new(), "x".to_string()],
        &vec![None, None],
        5,
        "id-1".to_string(),
        "2026-01-01T00:00:00Z".to_string(),
    );
    assert_eq!(report.report_id, "id-1");
    assert_eq!(report.generated_at, "2026-01-01T00:00:00Z");
    assert_eq!(report.repo_commit_before, "abc1234");
    assert_eq!(report.repo_commit_after, "working-tree");
    assert_eq!(report.changed_files, vec!["src/utils.ts", "src/new.ts"]);
    assert_eq!(report.material_changes.len(), 2);
    assert_eq!(report.material_changes[0].change_class, ChangeClass::C2);
    assert_eq!(report.material_changes[0].summary, "File deleted: src/utils.ts");
    assert_eq!(report.material_changes[1].change_class, ChangeClass::C1);
    assert_eq!(
        report.material_changes[1].evidence,
        Some(vec!["File added to repository".to_string(), "Exports: 0".to_string()])
    );
    assert_eq!(report.drift_level, "material");
    assert_eq!(report.affected_artifacts.len(), 3);
    assert_eq!(report.affected_artifacts[0].drift_level, "material");
    assert_eq!(report.affected_artifacts[2].artifact_id, "file_mirror:src/app.ts");
}

#[test]
fn classify_modified_file_against_its_mirror() {
    let mut current = make_file_result("src/a.ts", vec![]);
    current.exports.push(ExportedSymbol {
        name: "f".to_string(),
        kind: ExportKind::Function,
        line: 1,
        is_generated: false,
        confidence: ConfidenceBand::High,
    });
    let graph = ReverseDepGraph::build(&vec![current.clone()]);
    let changed = ChangedFile { path: "src/a.ts".to_string(), status: FileStatus::Modified };
    let source = "export function f() {}";
    let sfp = compute_source_fingerprint(source);
    let semfp = compute_semantic_fingerprint(&current);

    // Same source: no drift.
    let same = header_for("src/a.ts", &sfp, &semfp, Some(vec!["f".to_string()]));
    assert!(classify_change(&changed, source, &current, Some(&same), 5, &graph).is_none());

    // Source changed, semantics unchanged: C0.
    let c0 = header_for("src/a.ts", "sha256:old", &semfp, Some(vec!["f".to_string()]));
    let (class, summary, evidence) = classify_change(&changed, source, &current, Some(&c0), 5, &graph).unwrap();
    assert_eq!(class, ChangeClass::C0);
    assert_eq!(summary, "Formatting/comment change in src/a.ts");
    assert_eq!(evidence[0], format!("source_fingerprint changed: sha256:old -> {sfp}"));

    // Semantics changed, exports differ: C2.
    let c2 = header_for("src/a.ts", "sha256:old", "sha256:oldsem", Some(vec!["g".to_string()]));
    let (class, _, evidence) = classify_change(&changed, source, &current, Some(&c2), 5, &graph).unwrap();
    assert_eq!(class, ChangeClass::C2);
    assert_eq!(evidence, vec!["semantic_fingerprint changed".to_string(), "exports changed".to_string()]);

    // Semantics changed, exports and signatures unchanged: C1.
    let c1 = header_for("src/a.ts", "sha256:old", "sha256:oldsem", Some(vec!["f".to_string()]));
    let (class, summary, _) = classify_change(&changed, source, &current, Some(&c1), 5, &graph).unwrap();
    assert_eq!(class, ChangeClass::C1);
    assert_eq!(summary, "Internal change in src/a.ts");

    // Systemic threshold reached: C3.
    let (class, summary, _) = classify_change(&changed, source, &current, Some(&c1), 0, &graph).unwrap();
    assert_eq!(class, ChangeClass::C3);
    assert_eq!(summary, "Systemic change in src/a.ts (imported by 0 files)");

    // No mirror yet: treated as new.
    let (class, _, _) = classify_change(&changed, source, &current, None, 5, &graph).unwrap();
    assert_eq!(class, ChangeClass::C2);
}
