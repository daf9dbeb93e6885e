use wtcd::modules::{
    aggregate_module, build_module_graph, detect_language, detect_module_id, fanin_fanout, group_by_module_id,
    path_to_module_fallback, rollup_drift_level,
};
use wtcd::types::{
    ChangeClass, ConfidenceBand, DependencyEdge, ExportKind, ExportedSymbol, FileResult, FunctionSignature,
    ImportKind, SideEffect, SideEffectKind,
};

fn fr(path: &str, exports: &[&str], deps: &[&str]) -> FileResult {
    FileResult {
        file_path: path.to_string(),
        confidence: ConfidenceBand::High,
        exports: exports
            .iter()
            .map(|e| ExportedSymbol {
                name: (*e).to_string(),
                kind: ExportKind::Function,
                line: 1,
                is_generated: false,
                confidence: ConfidenceBand::High,
            })
            .collect(),
        imports: deps
            .iter()
            .map(|d| DependencyEdge { source: (*d).to_string(), symbols: vec![], kind: ImportKind::Named })
            .collect(),
        signatures: vec![FunctionSignature { name: "f".to_string(), parameters: vec![], return_type: "void".to_string() }],
        side_effects: vec![SideEffect { kind: SideEffectKind::Log, target: "log".to_string(), line: 1 }],
        parse_time_ms: 1,
        error_message: None,
    }
}

fn members<'a>(files: &'a [FileResult], positions: &[usize]) -> Vec<&'a FileResult> {
    positions.iter().map(|&i| &files[i]).collect()
}

#[test]
fn detects_python_and_go_modules() {
    assert_eq!(detect_module_id("pkg/__init__.py", ""), "pkg");
    assert_eq!(detect_module_id("svc/user/service.go", "package user\n"), "svc/user:user");
}

#[test]
fn module_id_fallbacks() {
    assert_eq!(detect_module_id("svc/user/service.go", "// no package\n"), "svc/user");
    assert_eq!(detect_module_id("main.go", "  package   main  // x\n"), "global:main");
    assert_eq!(detect_module_id("a/b/c.ts", "package x"), "a/b");
    assert_eq!(detect_module_id("a/__init__.py/__init__.py", ""), "a");
    assert_eq!(path_to_module_fallback("./x.ts"), "global");
    assert_eq!(detect_language("a.pyi"), "python");
    assert_eq!(detect_language("a.rs"), "unknown");
}

#[test]
fn groups_and_aggregates_modules() {
    let files = vec![fr("src/a/x.ts", &["A"], &["src/b"]), fr("src/a/y.ts", &["B"], &[]), fr("src/b/z.ts", &["C"], &["src/a"])];
    let source_map = vec![
        ("src/a/x.ts".to_string(), "export const A = 1".to_string()),
        ("src/a/y.ts".to_string(), "export const B = 1".to_string()),
        ("src/b/z.ts".to_string(), "export const C = 1".to_string()),
    ];

    let grouped = group_by_module_id(&files, &source_map);
    assert!(grouped.iter().any(|(k, _)| k == "src/a"));
    assert!(grouped.iter().any(|(k, _)| k == "src/b"));

    let group_a = &grouped.iter().find(|(k, _)| k == "src/a").unwrap().1;
    let group_b = &grouped.iter().find(|(k, _)| k == "src/b").unwrap().1;
    let a = aggregate_module("src/a", &members(&files, group_a), None, None);
    let b = aggregate_module("src/b", &members(&files, group_b), None, None);
    let graph = build_module_graph(&vec![a.clone(), b.clone()]);
    let (fanin_a, fanout_a) = fanin_fanout(&graph, "src/a");
    assert_eq!(fanout_a, 1);
    assert_eq!(fanin_a, 1);
    assert!(!a.semantic_fingerprint.is_empty());
}

#[test]
fn aggregate_module_fields() {
    let files = vec![fr("src/a/x.ts", &["B", "A"], &["z", "y"]), fr("src/a/y.js", &["A"], &["y"])];
    let refs: Vec<&FileResult> = files.iter().collect();
    let m = aggregate_module("src/a", &refs, None, Some(ChangeClass::C2));
    assert_eq!(m.files, vec!["src/a/x.ts", "src/a/y.js"]);
    assert_eq!(m.exports, vec!["A", "B"]);
    assert_eq!(m.dependencies, vec!["y", "z"]);
    assert_eq!(m.side_effects, vec!["Log:log"]);
    assert_eq!(m.language, "mixed");
    assert_eq!(m.fan_in, 0);
    assert_eq!(m.fan_out, 2);
    assert_eq!(m.drift_level, "C2");
    assert_eq!(m.responsibility, "模块 src/a 聚合导出 A、B，覆盖 2 个文件。");
    assert_eq!(m.confidence, ConfidenceBand::High);
    let empty = aggregate_module("m", &[], Some((3, 4)), None);
    assert_eq!(empty.language, "mixed");
    assert_eq!(empty.drift_level, "C0");
    assert_eq!((empty.fan_in, empty.fan_out), (3, 4));
    assert_eq!(empty.responsibility, "模块 m 提供内部实现，无显式导出。");
}

#[test]
fn aggregate_fingerprint_ignores_file_order() {
    let files = vec![fr("src/a/x.ts", &["A"], &[]), fr("src/a/y.ts", &["B"], &[])];
    let forward: Vec<&FileResult> = files.iter().collect();
    let backward: Vec<&FileResult> = files.iter().rev().collect();
    let m1 = aggregate_module("src/a", &forward, None, None);
    let m2 = aggregate_module("src/a", &backward, None, None);
    assert_eq!(m1.semantic_fingerprint, m2.semantic_fingerprint);
    assert_eq!(m1.language, "typescript");
}

#[test]
fn module_confidence_is_lowest() {
    let mut low = fr("a.ts", &[], &[]);
    low.confidence = ConfidenceBand::Low;
    let high = fr("b.ts", &[], &[]);
    let m = aggregate_module("x", &[&high, &low], None, None);
    assert_eq!(m.confidence, ConfidenceBand::Low);
}

#[test]
fn drift_rollup_works() {
    assert!(matches!(rollup_drift_level(&[ChangeClass::C0, ChangeClass::C1]), ChangeClass::C1));
    assert!(matches!(rollup_drift_level(&[ChangeClass::C2, ChangeClass::C1]), ChangeClass::C2));
    assert!(matches!(rollup_drift_level(&[ChangeClass::C3, ChangeClass::C2]), ChangeClass::C3));
    assert!(matches!(rollup_drift_level(&[]), ChangeClass::C0));
}
