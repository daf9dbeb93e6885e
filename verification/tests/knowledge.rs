use wtcd::index::{RoutingIndex, RoutingIndexEntry};
use wtcd::knowledge::{
    adr_skeleton_for_module, build_knowledge_result, generate_export_index, generate_module_dep_mermaid,
    generate_repo_overview, hotspot_map_from_drift, sanitize_node, suggest_read_paths,
};
use wtcd::types::{ChangeClass, ConfidenceBand, ModuleResult};

fn m(id: &str, deps: &[&str], drift: &str) -> ModuleResult {
    ModuleResult {
        module_id: id.to_string(),
        language: "typescript".to_string(),
        files: vec![format!("{id}/a.ts")],
        exports: vec!["A".to_string()],
        dependencies: deps.iter().map(|d| (*d).to_string()).collect(),
        side_effects: vec![],
        responsibility: "demo".to_string(),
        semantic_fingerprint: "sha256:abc".to_string(),
        fan_in: 0,
        fan_out: deps.len(),
        drift_level: drift.to_string(),
        confidence: ConfidenceBand::High,
    }
}

fn entry(module_id: &str, path: &str) -> RoutingIndexEntry {
    RoutingIndexEntry {
        artifact_id: format!("file_mirror:{path}"),
        module_id: module_id.to_string(),
        source_path: path.to_string(),
        exports: vec![],
        keywords: vec![],
        dependencies: vec![],
        risk_tags: vec![],
        freshness: "fresh".to_string(),
        confidence: "high".to_string(),
    }
}

fn ratio_text(mirror_tokens: usize, source_tokens: usize) -> String {
    let ratio = if source_tokens == 0 { 0.0 } else { mirror_tokens as f64 / source_tokens as f64 };
    format!("{:.4}", ratio)
}

#[test]
fn builds_knowledge_and_documents() {
    let modules = vec![m("src/auth", &["src/core"], "C1"), m("src/core", &[], "C2")];
    let knowledge = build_knowledge_result(&modules, 1000);
    assert_eq!(knowledge.module_count, 2);
    let overview =
        generate_repo_overview(&modules, &knowledge, &ratio_text(knowledge.mirror_tokens, knowledge.source_tokens));
    assert!(overview.contains("modules: 2"));

    let mermaid = generate_module_dep_mermaid(&modules);
    assert!(mermaid.contains("graph LR"));

    let export_index = generate_export_index(&modules);
    assert!(export_index.contains("src/auth::A"));
}

#[test]
fn knowledge_figures_exact() {
    let mut py = m("lib/x", &[], "C0");
    py.language = "python".to_string();
    py.files.push("lib/x/b.py".to_string());
    let modules = vec![m("src/auth", &["src/core"], "C1"), py, m("src/core", &[], "C2")];
    let k = build_knowledge_result(&modules, 40);
    assert_eq!(k.total_files, 4);
    assert_eq!(k.total_exports, 3);
    assert_eq!(k.mirror_tokens, 7);
    assert_eq!(k.source_tokens, 40);
    assert_eq!(k.language_distribution, vec![("python".to_string(), 2), ("typescript".to_string(), 2)]);
    let overview = generate_repo_overview(&modules, &k, &ratio_text(k.mirror_tokens, k.source_tokens));
    assert_eq!(
        overview,
        "# Repository Overview\n\n- modules: 3\n- files: 4\n- exports: 3\n- languages: python:2, typescript:2\n\
- entry_modules: lib/x, src/auth, src/core\n- token_compression_ratio: 0.1750"
    );
}

#[test]
fn mermaid_exact() {
    let modules = vec![m("src/auth", &["src/core/x"], "C1"), m("src/core", &[], "C2")];
    assert_eq!(
        generate_module_dep_mermaid(&modules),
        "graph LR\n  src_auth[\"src/auth\"]\n  src_core[\"src/core\"]\n  src_auth --> src_core"
    );
    assert_eq!(sanitize_node("a/b:c-d.e"), "a_b_c_d_e");
}

#[test]
fn export_index_sorted() {
    let mut b = m("b", &[], "C0");
    b.exports = vec!["z".to_string(), "a".to_string()];
    let modules = vec![b, m("a", &[], "C0")];
    assert_eq!(generate_export_index(&modules), "# Global Export Index\n\n- a::A\n- b::a\n- b::z");
}

#[test]
fn supports_clusters_hotspots_readpath_and_adr() {
    let modules = vec![m("src/auth", &["src/core"], "C3"), m("src/core", &[], "C2")];
    let clusters = wtcd::knowledge::community_clusters(&modules);
    assert!(!clusters.is_empty());

    let hotspots = hotspot_map_from_drift(&vec![vec![ChangeClass::C1, ChangeClass::C2], vec![ChangeClass::C3]]);
    assert_eq!(hotspots.iter().find(|(k, _)| k == "window_2").map(|(_, v)| *v).unwrap_or(0), 5);

    let routing = RoutingIndex {
        api_version: "1".to_string(),
        entries: vec![entry("src/auth", "src/auth/a.ts"), entry("src/core", "src/core/b.ts")],
    };

    let suggestions = suggest_read_paths(&modules, &routing);
    assert!(!suggestions.is_empty());

    let adr = adr_skeleton_for_module(&modules[0]).unwrap();
    assert!(adr.contains("ADR"));
}

#[test]
fn hotspots_sorted_by_key() {
    let history: Vec<Vec<ChangeClass>> = (0..11).map(|i| if i == 9 { vec![ChangeClass::C3, ChangeClass::C3] } else { vec![] }).collect();
    let hotspots = hotspot_map_from_drift(&history);
    assert_eq!(hotspots.len(), 11);
    assert_eq!(hotspots[0], ("window_1".to_string(), 0));
    assert_eq!(hotspots[1], ("window_10".to_string(), 10));
    assert_eq!(hotspots[2], ("window_11".to_string(), 0));
    assert_eq!(hotspots[3], ("window_2".to_string(), 0));
}

#[test]
fn read_paths_busiest_first() {
    let mut busy = m("busy", &["x", "y"], "C0");
    busy.fan_in = 3;
    let quiet = m("quiet", &[], "C0");
    let none = m("nofiles", &["q"], "C0");
    let routing = RoutingIndex {
        api_version: "1".to_string(),
        entries: vec![
            entry("quiet", "q/b.ts"),
            entry("busy", "b/z.ts"),
            entry("busy", "b/a.ts"),
            entry("busy", "b/a.ts"),
        ],
    };
    let paths = suggest_read_paths(&vec![quiet, busy, none], &routing);
    assert_eq!(paths, vec!["busy -> b/a.ts -> b/z.ts".to_string(), "quiet -> q/b.ts".to_string()]);
}

#[test]
fn adr_only_for_contract_or_systemic_drift() {
    assert!(adr_skeleton_for_module(&m("a", &[], "C1")).is_none());
    assert!(adr_skeleton_for_module(&m("a", &[], "none")).is_none());
    let adr = adr_skeleton_for_module(&m("a", &[], "c2")).unwrap();
    assert_eq!(
        adr,
        "# ADR: a drift C2\n\n## Status\nProposed\n\n## Context\n- module: a\n- drift: C2\n- exports: A\n\n## Decision\n[To be filled]\n\n## Consequences\n[To be filled]\n"
    );
}
