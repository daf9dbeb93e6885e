use wtcd::fingerprint::{canonical_json_text, compute_fingerprints, compute_semantic_fingerprint, compute_source_fingerprint};
use wtcd::types::{
    ConfidenceBand, DependencyEdge, ExportKind, ExportedSymbol, FileResult, FunctionSignature, ImportKind, Parameter,
    SideEffect, SideEffectKind,
};

fn sample_file_result() -> FileResult {
    FileResult {
        file_path: "src/test.ts".to_string(),
        confidence: ConfidenceBand::High,
        exports: vec![
            ExportedSymbol {
                name: "greet".to_string(),
                kind: ExportKind::Function,
                line: 1,
                is_generated: false,
                confidence: ConfidenceBand::High,
            },
            ExportedSymbol {
                name: "VERSION".to_string(),
                kind: ExportKind::Const,
                line: 5,
                is_generated: false,
                confidence: ConfidenceBand::High,
            },
        ],
        imports: vec![DependencyEdge {
            source: "node:path".to_string(),
            symbols: vec!["join".to_string()],
            kind: ImportKind::Named,
        }],
        signatures: vec![FunctionSignature {
            name: "greet".to_string(),
            parameters: vec![Parameter { name: "name".to_string(), type_annotation: "string".to_string() }],
            return_type: "string".to_string(),
        }],
        side_effects: vec![SideEffect { kind: SideEffectKind::Log, target: "console.log".to_string(), line: 3 }],
        parse_time_ms: 5,
        error_message: None,
    }
}

#[test]
fn source_fingerprint_empty_string() {
    let fp = compute_source_fingerprint("");
    assert!(fp.starts_with("sha256:"));
    assert_eq!(fp.len(), 71);
}

#[test]
fn source_fingerprint_known_digest() {
    assert_eq!(
        compute_source_fingerprint(""),
        "sha256:e3b0c44298fc1c149afbf4c8996fb92427ae41e4649b934ca495991b7852b855"
    );
    assert_eq!(
        compute_source_fingerprint("abc"),
        "sha256:ba7816bf8f01cfea414140de5dae2223b00361a396177a9cb410ff61f20015ad"
    );
}

#[test]
fn source_fingerprint_deterministic() {
    assert_eq!(compute_source_fingerprint("hello world"), compute_source_fingerprint("hello world"));
}

#[test]
fn source_fingerprint_single_char_change() {
    assert_ne!(compute_source_fingerprint("hello world"), compute_source_fingerprint("hello World"));
}

#[test]
fn source_fingerprint_prefix_format() {
    let fp = compute_source_fingerprint("test");
    assert!(fp.starts_with("sha256:"));
    let hex_part = &fp[7..];
    assert_eq!(hex_part.len(), 64);
    assert!(hex_part.chars().all(|c| c.is_ascii_hexdigit()));
}

#[test]
fn semantic_fingerprint_deterministic() {
    let result = sample_file_result();
    assert_eq!(compute_semantic_fingerprint(&result), compute_semantic_fingerprint(&result));
}

#[test]
fn semantic_fingerprint_different_exports() {
    let mut result = sample_file_result();
    let fp1 = compute_semantic_fingerprint(&result);
    result.exports.push(ExportedSymbol {
        name: "newFunc".to_string(),
        kind: ExportKind::Function,
        line: 10,
        is_generated: false,
        confidence: ConfidenceBand::High,
    });
    assert_ne!(fp1, compute_semantic_fingerprint(&result));
}

#[test]
fn semantic_fingerprint_stable_on_line_number_changes() {
    let result1 = sample_file_result();
    let mut result2 = sample_file_result();
    result2.exports[0].line = 99;
    result2.exports[1].line = 100;
    result2.side_effects[0].line = 200;
    assert_eq!(compute_semantic_fingerprint(&result1), compute_semantic_fingerprint(&result2));
}

#[test]
fn semantic_fingerprint_stable_on_import_reorder() {
    let result1 = FileResult {
        file_path: "test.ts".to_string(),
        confidence: ConfidenceBand::High,
        exports: vec![],
        imports: vec![
            DependencyEdge {
                source: "z-module".to_string(),
                symbols: vec!["a".to_string(), "b".to_string()],
                kind: ImportKind::Named,
            },
            DependencyEdge {
                source: "a-module".to_string(),
                symbols: vec!["z".to_string(), "y".to_string()],
                kind: ImportKind::Named,
            },
        ],
        signatures: vec![],
        side_effects: vec![],
        parse_time_ms: 0,
        error_message: None,
    };
    let mut result2 = result1.clone();
    result2.imports.swap(0, 1);
    result2.imports[1].symbols.swap(0, 1);
    assert_eq!(compute_semantic_fingerprint(&result1), compute_semantic_fingerprint(&result2));
}

#[test]
fn semantic_fingerprint_different_confidence() {
    let mut result1 = sample_file_result();
    result1.confidence = ConfidenceBand::High;
    let mut result2 = sample_file_result();
    result2.confidence = ConfidenceBand::Low;
    assert_ne!(compute_semantic_fingerprint(&result1), compute_semantic_fingerprint(&result2));
}

#[test]
fn semantic_fingerprint_prefix_format() {
    let fp = compute_semantic_fingerprint(&sample_file_result());
    assert!(fp.starts_with("sha256:"));
    let hex_part = &fp[7..];
    assert_eq!(hex_part.len(), 64);
    assert!(hex_part.chars().all(|c| c.is_ascii_hexdigit()));
}

#[test]
fn compute_fingerprints_returns_correct_fp_version() {
    let fp = compute_fingerprints("test source", &sample_file_result());
    assert_eq!(fp.fp_version, "1");
    assert!(fp.source.starts_with("sha256:"));
    assert!(fp.semantic.starts_with("sha256:"));
}

#[test]
fn compute_fingerprints_whitespace_changes() {
    let result = sample_file_result();
    let fp1 = compute_fingerprints("function greet(name: string) { return name; }", &result);
    let fp2 = compute_fingerprints("function  greet(  name:  string )\n{  return  name;  }", &result);
    assert_ne!(fp1.source, fp2.source);
    assert_eq!(fp1.semantic, fp2.semantic);
}

#[test]
fn compute_fingerprints_export_changes() {
    let result1 = sample_file_result();
    let mut result2 = sample_file_result();
    result2.exports.push(ExportedSymbol {
        name: "newExport".to_string(),
        kind: ExportKind::Function,
        line: 10,
        is_generated: false,
        confidence: ConfidenceBand::High,
    });
    let fp1 = compute_fingerprints("test", &result1);
    let fp2 = compute_fingerprints("test", &result2);
    assert_eq!(fp1.source, fp2.source);
    assert_ne!(fp1.semantic, fp2.semantic);
}

#[test]
fn canonical_json_is_sorted_and_lineless() {
    let json = canonical_json_text(&sample_file_result());
    assert_eq!(
        json,
        "{\"confidence\":\"high\",\"exports\":[{\"kind\":\"const\",\"name\":\"VERSION\"},{\"kind\":\"function\",\"name\":\"greet\"}],\
\"imports\":[{\"kind\":\"named\",\"source\":\"node:path\",\"symbols\":[\"join\"]}],\
\"side_effects\":[{\"kind\":\"log\",\"target\":\"console.log\"}],\
\"signatures\":[{\"name\":\"greet\",\"parameters\":[{\"name\":\"name\",\"type_annotation\":\"string\"}],\"return_type\":\"string\"}]}"
    );
}

#[test]
fn canonical_json_escapes_text() {
    let mut result = sample_file_result();
    result.exports = vec![ExportedSymbol {
        name: "a\"b\\c\n".to_string(),
        kind: ExportKind::Var,
        line: 1,
        is_generated: false,
        confidence: ConfidenceBand::Low,
    }];
    result.imports = vec![];
    result.signatures = vec![];
    result.side_effects = vec![];
    result.confidence = ConfidenceBand::NoConfidence;
    assert_eq!(
        canonical_json_text(&result),
        "{\"confidence\":\"none\",\"exports\":[{\"kind\":\"var\",\"name\":\"a\\\"b\\\\c\\n\"}],\"imports\":[],\"side_effects\":[],\"signatures\":[]}"
    );
}
