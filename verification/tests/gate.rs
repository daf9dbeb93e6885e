use wtcd::config::{FailRule, GateConfig, WarnRule};
use wtcd::gate::{check_rule_matches, evaluate_gate, get_exit_code};
use wtcd::types::{AffectedArtifact, ChangeClass, DriftReport, MaterialChange, PolicyResult};

fn make_report(material_changes: Vec<MaterialChange>) -> DriftReport {
    DriftReport {
        report_version: 1,
        report_id: "test".to_string(),
        repo_commit_before: "abc1234".to_string(),
        repo_commit_after: "working-tree".to_string(),
        generated_at: "2026-01-01T00:00:00Z".to_string(),
        drift_level: if material_changes.is_empty() { "none".to_string() } else { "material".to_string() },
        changed_files: vec![],
        affected_artifacts: vec![],
        material_changes,
        policy_result: PolicyResult {
            status: "pending".to_string(),
            failed_rules: vec![],
            failure_codes: None,
            recommendations: None,
        },
    }
}

fn make_change(class: ChangeClass, path: &str) -> MaterialChange {
    MaterialChange {
        change_class: class,
        source_path: path.to_string(),
        summary: format!("Change in {}", path),
        evidence: None,
    }
}

#[test]
fn default_warn_only_passes() {
    let config = GateConfig::default();
    let mut report = make_report(vec![make_change(ChangeClass::C2, "src/test.ts")]);
    let passed = evaluate_gate(&mut report, &config);
    assert!(passed);
    assert_eq!(report.policy_result.status, "warn");
}

#[test]
fn fail_on_c2_blocks() {
    let config = GateConfig {
        fail_on: vec![FailRule { when: "C2".to_string(), code: "ANRSM-001".to_string() }],
        warn_on: vec![],
        systemic_threshold: 5,
    };
    let mut report = make_report(vec![make_change(ChangeClass::C2, "src/test.ts")]);
    let passed = evaluate_gate(&mut report, &config);
    assert!(!passed);
    assert_eq!(report.policy_result.status, "fail");
}

#[test]
fn fail_on_c2_ignores_c0() {
    let config = GateConfig {
        fail_on: vec![FailRule { when: "C2".to_string(), code: "ANRSM-001".to_string() }],
        warn_on: vec![],
        systemic_threshold: 5,
    };
    let mut report = make_report(vec![make_change(ChangeClass::C0, "src/test.ts")]);
    let passed = evaluate_gate(&mut report, &config);
    assert!(passed);
}

#[test]
fn auto_codes_populated() {
    let config = GateConfig::default();
    let mut report = make_report(vec![
        make_change(ChangeClass::C2, "src/a.ts"),
        make_change(ChangeClass::C3, "src/b.ts"),
    ]);
    evaluate_gate(&mut report, &config);
    let codes = report.policy_result.failure_codes.as_ref().unwrap();
    assert!(codes.contains(&"ANRSM-001".to_string()));
    assert!(codes.contains(&"ANRSM-002".to_string()));
}

#[test]
fn exit_code_mapping() {
    assert_eq!(get_exit_code(true), 0);
    assert_eq!(get_exit_code(false), 1);
}

#[test]
fn clean_report_passes_with_recommendation() {
    let config = GateConfig::default();
    let mut report = make_report(vec![]);
    let passed = evaluate_gate(&mut report, &config);
    assert!(passed);
    assert_eq!(report.policy_result.status, "pass");
    assert_eq!(report.policy_result.failure_codes, None);
    assert_eq!(
        report.policy_result.recommendations,
        Some(vec!["No policy violations detected".to_string()])
    );
}

#[test]
fn gate_codes_come_in_fixed_order() {
    let config = GateConfig {
        fail_on: vec![FailRule { when: "any".to_string(), code: "X-1".to_string() }],
        warn_on: vec![WarnRule { when: "Material".to_string() }],
        systemic_threshold: 5,
    };
    let mut report = make_report(vec![
        make_change(ChangeClass::C2, "src/a.ts"),
        make_change(ChangeClass::C3, "src/b.ts"),
    ]);
    report.affected_artifacts.push(AffectedArtifact {
        artifact_id: "file_mirror:src/a.ts".to_string(),
        before_freshness: "fresh".to_string(),
        after_freshness: "stale".to_string(),
        drift_level: "material".to_string(),
        reason: "r".to_string(),
        recommended_action: None,
    });
    let passed = evaluate_gate(&mut report, &config);
    assert!(!passed);
    assert_eq!(report.policy_result.failed_rules, vec!["fail_on:any".to_string()]);
    assert_eq!(
        report.policy_result.failure_codes,
        Some(vec!["X-1".to_string(), "ANRSM-002".to_string(), "ANRSM-001".to_string(), "ANRSM-003".to_string()])
    );
    assert_eq!(
        report.policy_result.recommendations,
        Some(vec!["warn: Material changes detected".to_string()])
    );
    assert_eq!(report.report_id, "test");
}

#[test]
fn rule_conditions_are_case_insensitive() {
    let changes = vec![make_change(ChangeClass::C1, "src/a.ts")];
    assert!(check_rule_matches("MATERIAL", &changes, 5));
    assert!(check_rule_matches("c1", &changes, 5));
    assert!(!check_rule_matches("c0", &changes, 5));
    assert!(!check_rule_matches("unknown", &changes, 5));
    assert!(check_rule_matches("All", &changes, 5));
    assert!(!check_rule_matches("any", &vec![], 5));
}
